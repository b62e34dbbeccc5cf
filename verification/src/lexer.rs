//! The lexical layer of the DOT grammar: blank space, comments, identifier
//! tokens and the escapes of quoted strings.
//!
//! Every rule is stated as a function on a sequence of characters and a
//! position, and comes with an executable scanner that computes it.

use vstd::prelude::*;

verus! {

/// Space, tab, line feed or carriage return.
pub open spec fn is_space(c: char) -> bool {
    c == ' ' || c == '\t' || c == '\n' || c == '\r'
}

/// An ASCII letter or digit.
pub open spec fn is_alnum(c: char) -> bool {
    ('a' <= c && c <= 'z') || ('A' <= c && c <= 'Z') || ('0' <= c && c <= '9')
}

/// A character that may stand in a bare identifier: a letter, a digit, an
/// underscore, a dot, or any character outside ASCII.
pub open spec fn is_bare(c: char) -> bool {
    is_alnum(c) || c == '_' || c == '.' || (c as u32) >= 128
}

/// Executable form of [`is_space`].
pub fn space_char(c: char) -> (r: bool)
    ensures
        r == is_space(c),
{
    c == ' ' || c == '\t' || c == '\n' || c == '\r'
}

/// Executable form of [`is_alnum`].
pub fn alnum_char(c: char) -> (r: bool)
    ensures
        r == is_alnum(c),
{
    ('a' <= c && c <= 'z') || ('A' <= c && c <= 'Z') || ('0' <= c && c <= '9')
}

/// Executable form of [`is_bare`].
pub fn bare_char(c: char) -> (r: bool)
    ensures
        r == is_bare(c),
{
    alnum_char(c) || c == '_' || c == '.' || (c as u32) >= 128
}

/// The first position at or after `i` that holds a line feed, or the end of
/// the text.
pub open spec fn line_end(s: Seq<char>, i: int) -> int
    decreases s.len() - i,
{
    if i < 0 || i >= s.len() {
        s.len() as int
    } else if s[i] == '\n' {
        i
    } else {
        line_end(s, i + 1)
    }
}

/// The position just after the first `*/` that starts at or after `i`, if
/// there is one.
pub open spec fn block_end(s: Seq<char>, i: int) -> Option<int>
    decreases s.len() - i,
{
    if i < 0 || i + 1 >= s.len() {
        None
    } else if s[i] == '*' && s[i + 1] == '/' {
        Some(i + 2)
    } else {
        block_end(s, i + 1)
    }
}

/// Whether `s` holds the two characters `a`, `b` at position `i`.
pub open spec fn at2(s: Seq<char>, i: int, a: char, b: char) -> bool {
    0 <= i && i + 1 < s.len() && s[i] == a && s[i + 1] == b
}

/// The first position at or after `i` that is neither blank nor inside a
/// comment. Comments run from `//` to the end of the line or from `/*` to
/// the next `*/`; an unterminated `/*` is not skipped.
pub open spec fn skip_ws(s: Seq<char>, i: int) -> int
    decreases s.len() - i,
{
    if i < 0 || i >= s.len() {
        i
    } else if is_space(s[i]) {
        skip_ws(s, i + 1)
    } else if at2(s, i, '/', '/') {
        let j = line_end(s, i + 2);
        if i < j <= s.len() {
            skip_ws(s, j)
        } else {
            i
        }
    } else if at2(s, i, '/', '*') {
        match block_end(s, i + 2) {
            Some(j) if i < j <= s.len() => skip_ws(s, j),
            _ => i,
        }
    } else {
        i
    }
}

/// A line ends at or after the position from which its end is sought, and
/// inside the text.
pub proof fn lemma_line_end(s: Seq<char>, i: int)
    requires
        0 <= i <= s.len(),
    ensures
        i <= line_end(s, i) <= s.len(),
    decreases s.len() - i,
{
    if i < s.len() && s[i] != '\n' {
        lemma_line_end(s, i + 1);
    }
}

/// A block comment ends after its closing mark, inside the text.
pub proof fn lemma_block_end(s: Seq<char>, i: int)
    requires
        0 <= i <= s.len(),
    ensures
        block_end(s, i) matches Some(j) ==> i + 2 <= j <= s.len(),
    decreases s.len() - i,
{
    if i + 1 < s.len() && !(s[i] == '*' && s[i + 1] == '/') {
        lemma_block_end(s, i + 1);
    }
}

/// Blank space ends at or after the position from which it is skipped,
/// inside the text, and skipping again from there moves no further.
pub proof fn lemma_skip_ws(s: Seq<char>, i: int)
    requires
        0 <= i <= s.len(),
    ensures
        i <= skip_ws(s, i) <= s.len(),
        skip_ws(s, skip_ws(s, i)) == skip_ws(s, i),
    decreases s.len() - i,
{
    if i < s.len() {
        if is_space(s[i]) {
            lemma_skip_ws(s, i + 1);
        } else if at2(s, i, '/', '/') {
            lemma_line_end(s, i + 2);
            lemma_skip_ws(s, line_end(s, i + 2));
        } else if at2(s, i, '/', '*') {
            lemma_block_end(s, i + 2);
            if let Some(j) = block_end(s, i + 2) {
                lemma_skip_ws(s, j);
            }
        }
    }
}

/// Computes [`line_end`].
pub fn scan_line_end(s: &Vec<char>, i: usize) -> (r: usize)
    requires
        i <= s.len(),
    ensures
        r == line_end(s@, i as int),
        i <= r <= s.len(),
{
    let mut j: usize = i;
    while j < s.len() && s[j] != '\n'
        invariant
            i <= j <= s.len(),
            line_end(s@, i as int) == line_end(s@, j as int),
        decreases s.len() - j,
    {
        j = j + 1;
    }
    j
}

/// Computes [`block_end`].
pub fn scan_block_end(s: &Vec<char>, i: usize) -> (r: Option<usize>)
    requires
        i <= s.len(),
    ensures
        match r {
            Some(j) => block_end(s@, i as int) == Some(j as int) && i + 2 <= j <= s.len(),
            None => block_end(s@, i as int) is None,
        },
{
    let mut j: usize = i;
    while j < s.len() && j + 1 < s.len()
        invariant
            i <= j <= s.len(),
            block_end(s@, i as int) == block_end(s@, j as int),
        decreases s.len() - j,
    {
        if s[j] == '*' && s[j + 1] == '/' {
            return Some(j + 2);
        }
        j = j + 1;
    }
    None
}

/// Computes [`skip_ws`].
pub fn scan_ws(s: &Vec<char>, i: usize) -> (r: usize)
    requires
        i <= s.len(),
    ensures
        r == skip_ws(s@, i as int),
        i <= r <= s.len(),
{
    let mut j: usize = i;
    loop
        invariant
            i <= j <= s.len(),
            skip_ws(s@, i as int) == skip_ws(s@, j as int),
        ensures
            i <= j <= s.len(),
            skip_ws(s@, i as int) == j,
        decreases s.len() - j,
    {
        if j >= s.len() {
            break ;
        }
        let c = s[j];
        if space_char(c) {
            j = j + 1;
        } else if c == '/' && j + 1 < s.len() && s[j + 1] == '/' {
            proof {
                lemma_line_end(s@, j + 2);
            }
            j = scan_line_end(s, j + 2);
        } else if c == '/' && j + 1 < s.len() && s[j + 1] == '*' {
            match scan_block_end(s, j + 2) {
                Some(k) => {
                    j = k;
                },
                None => {
                    break ;
                },
            }
        } else {
            break ;
        }
    }
    j
}

/// The position just after the quote that closes a quoted string whose
/// body starts at `i`. A backslash takes the character after it along, so
/// `\"` does not close the string.
pub open spec fn quoted_end(s: Seq<char>, i: int) -> Option<int>
    decreases s.len() - i,
{
    if i < 0 || i >= s.len() {
        None
    } else if s[i] == '"' {
        Some(i + 1)
    } else if s[i] == '\\' {
        if i + 1 < s.len() {
            quoted_end(s, i + 2)
        } else {
            None
        }
    } else {
        quoted_end(s, i + 1)
    }
}

/// The position just after the `>` that brings the nesting of angle
/// brackets from `depth` back to zero, scanning from `i`.
pub open spec fn html_end(s: Seq<char>, i: int, depth: int) -> Option<int>
    decreases s.len() - i,
{
    if i < 0 || i >= s.len() {
        None
    } else if s[i] == '<' {
        html_end(s, i + 1, depth + 1)
    } else if s[i] == '>' {
        if depth <= 1 {
            Some(i + 1)
        } else {
            html_end(s, i + 1, depth - 1)
        }
    } else {
        html_end(s, i + 1, depth)
    }
}

/// The end of the run of bare identifier characters that starts at `i`.
pub open spec fn bare_end(s: Seq<char>, i: int) -> int
    decreases s.len() - i,
{
    if 0 <= i < s.len() && is_bare(s[i]) {
        bare_end(s, i + 1)
    } else {
        i
    }
}

/// The end of the identifier token that starts at `i`, if one starts
/// there. An identifier is a quoted string, an HTML-like string in balanced
/// angle brackets, or a non-empty run of bare characters that a single `-`
/// may precede.
pub open spec fn ident_end(s: Seq<char>, i: int) -> Option<int> {
    if i < 0 || i >= s.len() {
        None
    } else if s[i] == '"' {
        quoted_end(s, i + 1)
    } else if s[i] == '<' {
        html_end(s, i + 1, 1)
    } else {
        let start = if s[i] == '-' {
            i + 1
        } else {
            i
        };
        let j = bare_end(s, start);
        if j > start {
            Some(j)
        } else {
            None
        }
    }
}

/// A quoted string ends inside the text, just after a quote.
pub proof fn lemma_quoted_end(s: Seq<char>, i: int)
    requires
        0 <= i <= s.len(),
    ensures
        quoted_end(s, i) matches Some(j) ==> i < j <= s.len() && s[j - 1] == '"',
    decreases s.len() - i,
{
    if i < s.len() && s[i] != '"' {
        if s[i] == '\\' {
            if i + 1 < s.len() {
                lemma_quoted_end(s, i + 2);
            }
        } else {
            lemma_quoted_end(s, i + 1);
        }
    }
}

/// An HTML-like string ends inside the text, just after a `>`.
pub proof fn lemma_html_end(s: Seq<char>, i: int, depth: int)
    requires
        0 <= i <= s.len(),
    ensures
        html_end(s, i, depth) matches Some(j) ==> i < j <= s.len() && s[j - 1] == '>',
    decreases s.len() - i,
{
    if i < s.len() {
        if s[i] == '<' {
            lemma_html_end(s, i + 1, depth + 1);
        } else if s[i] == '>' {
            if depth > 1 {
                lemma_html_end(s, i + 1, depth - 1);
            }
        } else {
            lemma_html_end(s, i + 1, depth);
        }
    }
}

/// A run of bare characters holds bare characters only, ends inside the
/// text, and no bare character follows it.
pub proof fn lemma_bare_end(s: Seq<char>, i: int)
    requires
        0 <= i <= s.len(),
    ensures
        i <= bare_end(s, i) <= s.len(),
        forall|j: int| i <= j < bare_end(s, i) ==> is_bare(#[trigger] s[j]),
        bare_end(s, i) < s.len() ==> !is_bare(s[bare_end(s, i)]),
    decreases s.len() - i,
{
    if i < s.len() && is_bare(s[i]) {
        lemma_bare_end(s, i + 1);
    }
}

/// An identifier token is not empty and ends inside the text.
pub proof fn lemma_ident_end(s: Seq<char>, i: int)
    requires
        0 <= i <= s.len(),
    ensures
        ident_end(s, i) matches Some(j) ==> i < j <= s.len(),
{
    if i < s.len() {
        lemma_quoted_end(s, i + 1);
        lemma_html_end(s, i + 1, 1);
        lemma_bare_end(s, i);
        lemma_bare_end(s, i + 1);
    }
}

/// Computes [`quoted_end`].
pub fn scan_quoted_end(s: &Vec<char>, i: usize) -> (r: Option<usize>)
    requires
        i <= s.len(),
    ensures
        match r {
            Some(j) => quoted_end(s@, i as int) == Some(j as int) && i < j <= s.len(),
            None => quoted_end(s@, i as int) is None,
        },
{
    let mut j: usize = i;
    while j < s.len()
        invariant
            i <= j <= s.len(),
            quoted_end(s@, i as int) == quoted_end(s@, j as int),
        decreases s.len() - j,
    {
        let c = s[j];
        if c == '"' {
            return Some(j + 1);
        } else if c == '\\' {
            if j + 1 < s.len() {
                j = j + 2;
            } else {
                return None;
            }
        } else {
            j = j + 1;
        }
    }
    None
}

/// Computes [`html_end`] for the outermost bracket, whose `<` stands just
/// before `i`.
pub fn scan_html_end(s: &Vec<char>, i: usize) -> (r: Option<usize>)
    requires
        0 < i <= s.len(),
    ensures
        match r {
            Some(j) => html_end(s@, i as int, 1) == Some(j as int) && i < j <= s.len(),
            None => html_end(s@, i as int, 1) is None,
        },
{
    let mut j: usize = i;
    let mut depth: usize = 1;
    while j < s.len()
        invariant
            0 < i <= j <= s.len(),
            1 <= depth <= j - i + 1,
            html_end(s@, i as int, 1) == html_end(s@, j as int, depth as int),
        decreases s.len() - j,
    {
        let c = s[j];
        if c == '<' {
            depth = depth + 1;
        } else if c == '>' {
            if depth <= 1 {
                return Some(j + 1);
            }
            depth = depth - 1;
        }
        j = j + 1;
    }
    None
}

/// Computes [`bare_end`].
pub fn scan_bare_end(s: &Vec<char>, i: usize) -> (r: usize)
    requires
        i <= s.len(),
    ensures
        r == bare_end(s@, i as int),
        i <= r <= s.len(),
{
    let mut j: usize = i;
    while j < s.len() && bare_char(s[j])
        invariant
            i <= j <= s.len(),
            bare_end(s@, i as int) == bare_end(s@, j as int),
        decreases s.len() - j,
    {
        j = j + 1;
    }
    j
}

/// Computes [`ident_end`].
pub fn scan_ident(s: &Vec<char>, i: usize) -> (r: Option<usize>)
    requires
        i <= s.len(),
    ensures
        match r {
            Some(j) => ident_end(s@, i as int) == Some(j as int) && i < j <= s.len(),
            None => ident_end(s@, i as int) is None,
        },
{
    if i >= s.len() {
        return None;
    }
    let c = s[i];
    if c == '"' {
        scan_quoted_end(s, i + 1)
    } else if c == '<' {
        scan_html_end(s, i + 1)
    } else {
        let start = if c == '-' {
            i + 1
        } else {
            i
        };
        let j = scan_bare_end(s, start);
        if j > start {
            Some(j)
        } else {
            None
        }
    }
}

/// What one character of a quoted string becomes when it is written out:
/// backslash, quote, line feed and carriage return take a backslash.
pub open spec fn escape_char(c: char) -> Seq<char> {
    if c == '\\' {
        seq!['\\', '\\']
    } else if c == '"' {
        seq!['\\', '"']
    } else if c == '\n' {
        seq!['\\', 'n']
    } else if c == '\r' {
        seq!['\\', 'r']
    } else {
        seq![c]
    }
}

/// The body of the quoted string that stands for `s`.
pub open spec fn escape(s: Seq<char>) -> Seq<char>
    decreases s.len(),
{
    if s.len() == 0 {
        Seq::empty()
    } else {
        escape_char(s[0]) + escape(s.skip(1))
    }
}

/// The text that the body `s` of a quoted string stands for: `\\`,
/// `\"`, `\n` and `\r` become backslash, quote, line feed and carriage
/// return; any other character stands for itself, a backslash before it
/// included.
pub open spec fn unescape(s: Seq<char>) -> Seq<char>
    decreases s.len(),
{
    if s.len() == 0 {
        Seq::empty()
    } else if s[0] == '\\' && s.len() >= 2 {
        let c = s[1];
        let rest = unescape(s.skip(2));
        if c == 'n' {
            seq!['\n'] + rest
        } else if c == 'r' {
            seq!['\r'] + rest
        } else if c == '"' || c == '\\' {
            seq![c] + rest
        } else {
            seq!['\\', c] + rest
        }
    } else {
        seq![s[0]] + unescape(s.skip(1))
    }
}

/// Escaping distributes over concatenation.
pub proof fn lemma_escape_concat(a: Seq<char>, b: Seq<char>)
    ensures
        escape(a + b) == escape(a) + escape(b),
    decreases a.len(),
{
    if a.len() != 0 {
        assert((a + b).skip(1) =~= a.skip(1) + b);
        lemma_escape_concat(a.skip(1), b);
    }
}

/// Reading back what was escaped gives the text that was escaped.
pub proof fn lemma_unescape_escape(s: Seq<char>)
    ensures
        unescape(escape(s)) == s,
    decreases s.len(),
{
    if s.len() > 0 {
        let c = s[0];
        let e = escape(s);
        let rest = escape(s.skip(1));
        lemma_unescape_escape(s.skip(1));
        if c == '\\' || c == '"' || c == '\n' || c == '\r' {
            assert(e.skip(2) =~= rest);
        } else {
            assert(e.skip(1) =~= rest);
        }
    }
}

/// The escaped form holds no bare quote: every quote in it follows a
/// backslash that escapes it, so [`quoted_end`] runs through to its end.
pub proof fn lemma_escape_quoted_end(s: Seq<char>, tail: Seq<char>)
    ensures
        quoted_end(escape(s) + tail, 0) == match quoted_end(tail, 0) {
            Some(j) => Some(escape(s).len() + j),
            None => None,
        },
    decreases s.len(),
{
    let e = escape(s);
    let t = e + tail;
    if s.len() != 0 {
        let c = s[0];
        let rest = escape(s.skip(1));
        lemma_escape_quoted_end(s.skip(1), tail);
        let k: int = if c == '\\' || c == '"' || c == '\n' || c == '\r' {
            2
        } else {
            1
        };
        assert(t.skip(k) =~= rest + tail);
        lemma_quoted_end_skip(t, k, 0);
    }
}

/// Scanning a suffix of the text gives the same end, shifted.
pub proof fn lemma_quoted_end_skip(s: Seq<char>, k: int, i: int)
    requires
        0 <= k <= s.len(),
        0 <= i,
    ensures
        quoted_end(s.skip(k), i) == match quoted_end(s, k + i) {
            Some(j) => Some(j - k),
            None => None,
        },
    decreases s.len() - k - i,
{
    let t = s.skip(k);
    if i < t.len() {
        if t[i] == '"' {
        } else if t[i] == '\\' {
            if i + 1 < t.len() {
                lemma_quoted_end_skip(s, k, i + 2);
            }
        } else {
            lemma_quoted_end_skip(s, k, i + 1);
        }
    }
}

/// Appends the escaped form of `v` to `out`.
pub fn push_escaped(out: &mut String, v: &str)
    ensures
        final(out)@ == old(out)@ + escape(v@),
{
    let chars = crate::text::chars_of(v);
    let mut i: usize = 0;
    while i < chars.len()
        invariant
            i <= chars.len(),
            chars@ == v@,
            out@ == old(out)@ + escape(chars@.take(i as int)),
        decreases chars.len() - i,
    {
        let c = chars[i];
        proof {
            assert(chars@.take(i as int + 1) =~= chars@.take(i as int) + seq![c]);
            lemma_escape_concat(chars@.take(i as int), seq![c]);
            assert(escape(seq![c].skip(1)) =~= Seq::<char>::empty());
        }
        if c == '\\' {
            out.push('\\');
            out.push('\\');
        } else if c == '"' {
            out.push('\\');
            out.push('"');
        } else if c == '\n' {
            out.push('\\');
            out.push('n');
        } else if c == '\r' {
            out.push('\\');
            out.push('r');
        } else {
            out.push(c);
        }
        i = i + 1;
    }
    assert(chars@.take(chars.len() as int) =~= chars@);
}

/// The escaped form of `s`: what stands between the quotes of the quoted
/// string for `s`.
pub fn escape_quotes(s: &str) -> (r: String)
    ensures
        r@ == escape(s@),
{
    let mut out = String::new();
    push_escaped(&mut out, s);
    out
}

/// The text that the characters `s[from..to]`, the body of a quoted
/// string, stand for.
pub fn unescaped(s: &Vec<char>, from: usize, to: usize) -> (r: String)
    requires
        from <= to <= s.len(),
    ensures
        r@ == unescape(s@.subrange(from as int, to as int)),
{
    let mut out = String::new();
    let mut i: usize = from;
    let ghost body = s@.subrange(from as int, to as int);
    proof {
        assert(s@.subrange(from as int, to as int) =~= body.skip(0));
    }
    while i < to
        invariant
            from <= i <= to <= s.len(),
            body == s@.subrange(from as int, to as int),
            unescape(body) == out@ + unescape(body.skip(i - from)),
        decreases to - i,
    {
        let c = s[i];
        let ghost rest = body.skip(i - from);
        if c == '\\' && i + 1 < to {
            let d = s[i + 1];
            proof {
                assert(rest.skip(2) =~= body.skip(i + 2 - from));
            }
            if d == 'n' {
                out.push('\n');
            } else if d == 'r' {
                out.push('\r');
            } else if d == '"' || d == '\\' {
                out.push(d);
            } else {
                out.push('\\');
                out.push(d);
            }
            i = i + 2;
        } else {
            proof {
                assert(rest.skip(1) =~= body.skip(i + 1 - from));
            }
            out.push(c);
            i = i + 1;
        }
    }
    out
}

} // verus!
