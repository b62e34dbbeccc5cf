//! Chunks: the flat, ordered records that a DOT document is edited as.

use vstd::prelude::*;
use crate::attrs::{AttrSeq, Attrs};
use crate::text::{opt_eq, str_eq};

verus! {

/// The kind tag of a node statement.
pub const KIND_NODE: &'static str = "node";

/// The kind tag of an edge between two endpoints.
pub const KIND_EDGE: &'static str = "edge";

/// The kind tag of a subgraph block.
pub const KIND_SUBGRAPH: &'static str = "subgraph";

/// The kind tag of a `graph [..]`, `node [..]` or `edge [..]` statement.
pub const KIND_ATTR_STMT: &'static str = "attr_stmt";

/// The kind tag of an `id = value` statement.
pub const KIND_ID_EQ: &'static str = "id_eq";

/// The kind tag of a rank group.
pub const KIND_RANK: &'static str = "rank";

/// One unit of parsed structure.
///
/// `range` is the inclusive pair of source lines that the chunk came from,
/// or `(0, 0)` for a chunk that an edit created. Nesting is never stored:
/// a chunk lies inside a subgraph when its range lies inside the
/// subgraph's range.
#[derive(Debug)]
pub struct Chunk {
    /// One of the kind tags above.
    pub kind: String,
    /// Node id, edge source, subgraph name, statement target or attribute
    /// name.
    pub id: Option<String>,
    /// Attribute name to value.
    pub attrs: Attrs,
    /// First and last source line, both inclusive.
    pub range: (usize, usize),
    /// Edge target, or the value of an `id = value` statement.
    pub extra: Option<String>,
}

/// The mathematical model of a [`Chunk`].
pub struct ChunkView {
    pub kind: Seq<char>,
    pub id: Option<Seq<char>>,
    pub attrs: AttrSeq,
    pub range: (usize, usize),
    pub extra: Option<Seq<char>>,
}

/// The model of an optional string.
pub open spec fn opt_view(o: Option<String>) -> Option<Seq<char>> {
    match o {
        Some(s) => Some(s@),
        None => None,
    }
}

impl View for Chunk {
    type V = ChunkView;

    open spec fn view(&self) -> ChunkView {
        ChunkView {
            kind: self.kind@,
            id: opt_view(self.id),
            attrs: self.attrs@,
            range: self.range,
            extra: opt_view(self.extra),
        }
    }
}

/// The models of a list of chunks, in order.
pub open spec fn views(s: Seq<Chunk>) -> Seq<ChunkView> {
    s.map_values(|c: Chunk| c@)
}

/// What a chunk says, apart from where it stood: kind, id, attributes and
/// extra value.
pub type Content = (Seq<char>, Option<Seq<char>>, AttrSeq, Option<Seq<char>>);

/// What a chunk says, apart from where it stood in the source.
pub open spec fn content(c: ChunkView) -> Content {
    (c.kind, c.id, c.attrs, c.extra)
}

/// What the chunks say, in order.
pub open spec fn contents(cs: Seq<ChunkView>) -> Seq<Content> {
    cs.map_values(|c: ChunkView| content(c))
}

/// `inner` lies strictly inside `outer`: this is how a chunk is known to be
/// nested in a subgraph.
pub open spec fn strictly_within(inner: (usize, usize), outer: (usize, usize)) -> bool {
    inner.0 > outer.0 && inner.1 < outer.1
}

/// `inner` does not reach outside `outer`.
pub open spec fn within(inner: (usize, usize), outer: (usize, usize)) -> bool {
    inner.0 >= outer.0 && inner.1 <= outer.1
}

/// A chunk of kind `kind` whose id is `id`.
pub open spec fn has_kind_id(c: ChunkView, kind: Seq<char>, id: Seq<char>) -> bool {
    c.kind == kind && c.id == Some(id)
}

/// An edge chunk from `from` to `to`.
pub open spec fn is_edge(c: ChunkView, from: Seq<char>, to: Seq<char>) -> bool {
    c.kind == KIND_EDGE@ && c.id == Some(from) && c.extra == Some(to)
}

/// The predicate "is of kind `kind`".
pub open spec fn of_kind(kind: Seq<char>) -> spec_fn(ChunkView) -> bool {
    |c: ChunkView| c.kind == kind
}

/// The predicate "is of kind `kind` and has id `id`".
pub open spec fn with_kind_id(kind: Seq<char>, id: Seq<char>) -> spec_fn(ChunkView) -> bool {
    |c: ChunkView| has_kind_id(c, kind, id)
}

/// The predicate "is the edge from `from` to `to`".
pub open spec fn edge_between(from: Seq<char>, to: Seq<char>) -> spec_fn(ChunkView) -> bool {
    |c: ChunkView| is_edge(c, from, to)
}

/// The six kind tags are pairwise different.
pub proof fn lemma_kinds_differ()
    ensures
        KIND_NODE@ != KIND_EDGE@,
        KIND_NODE@ != KIND_SUBGRAPH@,
        KIND_NODE@ != KIND_ATTR_STMT@,
        KIND_NODE@ != KIND_ID_EQ@,
        KIND_NODE@ != KIND_RANK@,
        KIND_EDGE@ != KIND_SUBGRAPH@,
        KIND_EDGE@ != KIND_ATTR_STMT@,
        KIND_EDGE@ != KIND_ID_EQ@,
        KIND_EDGE@ != KIND_RANK@,
        KIND_SUBGRAPH@ != KIND_ATTR_STMT@,
        KIND_SUBGRAPH@ != KIND_ID_EQ@,
        KIND_SUBGRAPH@ != KIND_RANK@,
        KIND_ATTR_STMT@ != KIND_ID_EQ@,
        KIND_ATTR_STMT@ != KIND_RANK@,
        KIND_ID_EQ@ != KIND_RANK@,
{
    reveal_strlit("node");
    reveal_strlit("edge");
    reveal_strlit("subgraph");
    reveal_strlit("attr_stmt");
    reveal_strlit("id_eq");
    reveal_strlit("rank");
    assert(KIND_EDGE@[0] == 'e');
    assert(KIND_SUBGRAPH@[0] == 's');
    assert(KIND_ATTR_STMT@[0] == 'a');
    assert(KIND_ID_EQ@[0] == 'i');
    assert(KIND_RANK@[0] == 'r');
}

/// Copies an optional string.
pub fn clone_opt(o: &Option<String>) -> (r: Option<String>)
    ensures
        opt_view(r) == opt_view(*o),
{
    match o {
        Some(s) => Some(s.clone()),
        None => None,
    }
}

impl Clone for Chunk {
    fn clone(&self) -> (r: Chunk)
        ensures
            r@ == self@,
    {
        Chunk {
            kind: self.kind.clone(),
            id: clone_opt(&self.id),
            attrs: self.attrs.clone(),
            range: self.range,
            extra: clone_opt(&self.extra),
        }
    }
}

impl Chunk {
    /// A chunk with the given fields.
    pub fn new(
        kind: &str,
        id: Option<String>,
        attrs: Attrs,
        range: (usize, usize),
        extra: Option<String>,
    ) -> (r: Chunk)
        ensures
            r@ == (ChunkView {
                kind: kind@,
                id: opt_view(id),
                attrs: attrs@,
                range: range,
                extra: opt_view(extra),
            }),
    {
        Chunk { kind: String::from_str(kind), id, attrs, range, extra }
    }

    /// Whether the chunk is of kind `kind`.
    pub fn is_kind(&self, kind: &str) -> (r: bool)
        ensures
            r == (self@.kind == kind@),
    {
        str_eq(self.kind.as_str(), kind)
    }

    /// Whether the chunk is of kind `kind` and has id `id`.
    pub fn is_kind_id(&self, kind: &str, id: &str) -> (r: bool)
        ensures
            r == has_kind_id(self@, kind@, id@),
    {
        self.is_kind(kind) && opt_eq(&self.id, id)
    }

    /// Whether the chunk is the edge from `from` to `to`.
    pub fn is_edge_between(&self, from: &str, to: &str) -> (r: bool)
        ensures
            r == is_edge(self@, from@, to@),
    {
        self.is_kind(KIND_EDGE) && opt_eq(&self.id, from) && opt_eq(&self.extra, to)
    }
}

} // verus!
