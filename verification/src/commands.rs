//! Edit commands on a chunk list, and what each of them does.

use vstd::prelude::*;
use crate::attrs::{as_map, lemma_merge, merge, sorted_keys, AttrSeq, Attrs};
use crate::chunk::{
    clone_opt, edge_between, of_kind, strictly_within, views, with_kind_id, within, Chunk,
    ChunkView, KIND_ATTR_STMT, KIND_EDGE, KIND_ID_EQ, KIND_NODE, KIND_SUBGRAPH,
};
use crate::error::{Error, ErrorView};
use crate::grammar::{attr_stmt_chunk, edge_chunk, id_eq_chunk, node_chunk, parse_attrs, subgraph_chunk};
use crate::parser::parse_attribute_string;
use crate::seqs::{
    first_from, first_index, last_before, last_index, lemma_first_index, lemma_first_index_is,
    lemma_last_index,
};

verus! {

/// One edit of a chunk list.
#[allow(inconsistent_fields)]
#[derive(Debug)]
pub enum DotCommand {
    /// Adds a node; `parent` names the subgraph to put it in.
    CreateNode { id: String, attrs: Option<String>, parent: Option<String> },
    /// Merges attributes into an existing node.
    UpdateNode { id: String, attrs: Option<String> },
    /// Removes a node. Its edges stay.
    DeleteNode { id: String },
    /// Adds an edge; `parent` names the subgraph to put it in.
    CreateEdge { from: String, to: String, attrs: Option<String>, parent: Option<String> },
    /// Merges attributes into an edge, creating the edge if it is missing.
    UpdateEdge { from: String, to: String, attrs: Option<String> },
    /// Removes an edge.
    DeleteEdge { from: String, to: String },
    /// Adds a subgraph, which may be anonymous.
    CreateSubgraph { id: Option<String>, parent: Option<String> },
    /// Removes a subgraph and everything inside its range.
    DeleteSubgraph { id: String },
    /// Sets a graph-level `key = value`.
    SetGraphAttr { key: String, value: String },
    /// Merges attributes into the `node [..]` defaults.
    SetNodeDefault { attrs: String },
    /// Merges attributes into the `edge [..]` defaults.
    SetEdgeDefault { attrs: String },
    /// Removes a graph-level `key = value`.
    DeleteAttr { key: String },
}

/// The mathematical model of a [`DotCommand`].
#[allow(inconsistent_fields)]
pub enum CommandView {
    CreateNode { id: Seq<char>, attrs: Option<Seq<char>>, parent: Option<Seq<char>> },
    UpdateNode { id: Seq<char>, attrs: Option<Seq<char>> },
    DeleteNode { id: Seq<char> },
    CreateEdge {
        from: Seq<char>,
        to: Seq<char>,
        attrs: Option<Seq<char>>,
        parent: Option<Seq<char>>,
    },
    UpdateEdge { from: Seq<char>, to: Seq<char>, attrs: Option<Seq<char>> },
    DeleteEdge { from: Seq<char>, to: Seq<char> },
    CreateSubgraph { id: Option<Seq<char>>, parent: Option<Seq<char>> },
    DeleteSubgraph { id: Seq<char> },
    SetGraphAttr { key: Seq<char>, value: Seq<char> },
    SetNodeDefault { attrs: Seq<char> },
    SetEdgeDefault { attrs: Seq<char> },
    DeleteAttr { key: Seq<char> },
}

impl View for DotCommand {
    type V = CommandView;

    open spec fn view(&self) -> CommandView {
        match self {
            DotCommand::CreateNode { id, attrs, parent } => CommandView::CreateNode {
                id: id@,
                attrs: crate::chunk::opt_view(*attrs),
                parent: crate::chunk::opt_view(*parent),
            },
            DotCommand::UpdateNode { id, attrs } => CommandView::UpdateNode {
                id: id@,
                attrs: crate::chunk::opt_view(*attrs),
            },
            DotCommand::DeleteNode { id } => CommandView::DeleteNode { id: id@ },
            DotCommand::CreateEdge { from, to, attrs, parent } => CommandView::CreateEdge {
                from: from@,
                to: to@,
                attrs: crate::chunk::opt_view(*attrs),
                parent: crate::chunk::opt_view(*parent),
            },
            DotCommand::UpdateEdge { from, to, attrs } => CommandView::UpdateEdge {
                from: from@,
                to: to@,
                attrs: crate::chunk::opt_view(*attrs),
            },
            DotCommand::DeleteEdge { from, to } => CommandView::DeleteEdge { from: from@, to: to@ },
            DotCommand::CreateSubgraph { id, parent } => CommandView::CreateSubgraph {
                id: crate::chunk::opt_view(*id),
                parent: crate::chunk::opt_view(*parent),
            },
            DotCommand::DeleteSubgraph { id } => CommandView::DeleteSubgraph { id: id@ },
            DotCommand::SetGraphAttr { key, value } => CommandView::SetGraphAttr {
                key: key@,
                value: value@,
            },
            DotCommand::SetNodeDefault { attrs } => CommandView::SetNodeDefault { attrs: attrs@ },
            DotCommand::SetEdgeDefault { attrs } => CommandView::SetEdgeDefault { attrs: attrs@ },
            DotCommand::DeleteAttr { key } => CommandView::DeleteAttr { key: key@ },
        }
    }
}

impl Clone for DotCommand {
    fn clone(&self) -> (r: DotCommand)
        ensures
            r@ == self@,
    {
        match self {
            DotCommand::CreateNode { id, attrs, parent } => DotCommand::CreateNode {
                id: id.clone(),
                attrs: clone_opt(attrs),
                parent: clone_opt(parent),
            },
            DotCommand::UpdateNode { id, attrs } => DotCommand::UpdateNode {
                id: id.clone(),
                attrs: clone_opt(attrs),
            },
            DotCommand::DeleteNode { id } => DotCommand::DeleteNode { id: id.clone() },
            DotCommand::CreateEdge { from, to, attrs, parent } => DotCommand::CreateEdge {
                from: from.clone(),
                to: to.clone(),
                attrs: clone_opt(attrs),
                parent: clone_opt(parent),
            },
            DotCommand::UpdateEdge { from, to, attrs } => DotCommand::UpdateEdge {
                from: from.clone(),
                to: to.clone(),
                attrs: clone_opt(attrs),
            },
            DotCommand::DeleteEdge { from, to } => DotCommand::DeleteEdge {
                from: from.clone(),
                to: to.clone(),
            },
            DotCommand::CreateSubgraph { id, parent } => DotCommand::CreateSubgraph {
                id: clone_opt(id),
                parent: clone_opt(parent),
            },
            DotCommand::DeleteSubgraph { id } => DotCommand::DeleteSubgraph { id: id.clone() },
            DotCommand::SetGraphAttr { key, value } => DotCommand::SetGraphAttr {
                key: key.clone(),
                value: value.clone(),
            },
            DotCommand::SetNodeDefault { attrs } => DotCommand::SetNodeDefault {
                attrs: attrs.clone(),
            },
            DotCommand::SetEdgeDefault { attrs } => DotCommand::SetEdgeDefault {
                attrs: attrs.clone(),
            },
            DotCommand::DeleteAttr { key } => DotCommand::DeleteAttr { key: key.clone() },
        }
    }
}

/// The line after `n`; the last line that a `usize` can count has none
/// after it and stands for itself.
pub open spec fn line_after(n: usize) -> usize {
    if n < usize::MAX {
        (n + 1) as usize
    } else {
        n
    }
}

/// The line before `n`; line 0 stands for itself.
pub open spec fn line_before(n: usize) -> usize {
    if n > 0 {
        (n - 1) as usize
    } else {
        n
    }
}

/// Ten lines after `n`, or the last line that a `usize` can count.
pub open spec fn ten_after(n: usize) -> usize {
    if n <= usize::MAX - 10 {
        (n + 10) as usize
    } else {
        usize::MAX
    }
}

/// The line after the end of the last chunk, or 1 for an empty list.
pub open spec fn next_line(chunks: Seq<ChunkView>) -> usize {
    if chunks.len() == 0 {
        1
    } else {
        line_after(chunks.last().range.1)
    }
}

/// The attributes that an optional attribute string describes.
pub open spec fn attrs_of(a: Option<Seq<char>>) -> AttrSeq {
    match a {
        Some(t) => parse_attrs(t),
        None => Seq::empty(),
    }
}

/// Among the first `n` chunks, the one that lies strictly inside `outer` and
/// ends on the greatest line; of several that end there, the last.
pub open spec fn last_child(chunks: Seq<ChunkView>, outer: (usize, usize), n: int) -> Option<int>
    decreases n,
{
    if n <= 0 || n > chunks.len() {
        None
    } else {
        let prev = last_child(chunks, outer, n - 1);
        if strictly_within(chunks[n - 1].range, outer) && (prev is None || chunks[prev->0].range.1
            <= chunks[n - 1].range.1) {
            Some(n - 1)
        } else {
            prev
        }
    }
}

/// Where a new chunk goes inside the subgraph at `ppos`, and its line: just
/// after the last child and one line past its end, or just after the
/// subgraph's own chunk and one line past its start when it has no child.
pub open spec fn slot_in(chunks: Seq<ChunkView>, ppos: int) -> (int, usize) {
    match last_child(chunks, chunks[ppos].range, chunks.len() as int) {
        Some(k) => (k + 1, line_after(chunks[k].range.1)),
        None => (ppos + 1, line_after(chunks[ppos].range.0)),
    }
}

/// No subgraph of the list holds `c` strictly inside its range.
pub open spec fn is_top_level(chunks: Seq<ChunkView>, c: ChunkView) -> bool {
    forall|j: int|
        0 <= j < chunks.len() ==> !((#[trigger] chunks[j]).kind == KIND_SUBGRAPH@
            && strictly_within(c.range, chunks[j].range))
}

/// The predicate "is of kind `kind` and at top level in `chunks`".
pub open spec fn top_level_of_kind(chunks: Seq<ChunkView>, kind: Seq<char>) -> spec_fn(
    ChunkView,
) -> bool {
    |c: ChunkView| c.kind == kind && is_top_level(chunks, c)
}

/// Where a new top-level chunk of kind `kind` goes, and its line: just
/// after the last top-level chunk of that kind, or at the end of the list
/// when there is none; one line past the end of the chunk before it, or
/// line 1 at the head of the list.
pub open spec fn slot_top(chunks: Seq<ChunkView>, kind: Seq<char>) -> (int, usize) {
    let pos = match last_index(chunks, top_level_of_kind(chunks, kind)) {
        Some(k) => k + 1,
        None => chunks.len() as int,
    };
    (
        pos,
        if 0 < pos <= chunks.len() {
            line_after(chunks[pos - 1].range.1)
        } else {
            1
        },
    )
}

/// Where a new chunk of kind `kind` goes and its line, or the error when
/// the named parent is missing.
pub open spec fn slot(chunks: Seq<ChunkView>, kind: Seq<char>, parent: Option<Seq<char>>) -> Result<
    (int, usize),
    ErrorView,
> {
    match parent {
        Some(p) => match first_index(chunks, with_kind_id(KIND_SUBGRAPH@, p)) {
            Some(ppos) => Ok(slot_in(chunks, ppos)),
            None => Err(ErrorView::ParentSubgraphNotFound(p)),
        },
        None => Ok(slot_top(chunks, kind)),
    }
}

/// `c` with the attributes `extra` merged into its own.
pub open spec fn with_merged(c: ChunkView, extra: AttrSeq) -> ChunkView {
    ChunkView { attrs: merge(c.attrs, extra), ..c }
}

/// What `CreateNode` does.
pub open spec fn create_node(
    chunks: Seq<ChunkView>,
    id: Seq<char>,
    attrs: Option<Seq<char>>,
    parent: Option<Seq<char>>,
) -> Result<Seq<ChunkView>, ErrorView> {
    if first_index(chunks, with_kind_id(KIND_NODE@, id)) is Some {
        Err(ErrorView::NodeAlreadyExists(id))
    } else {
        match slot(chunks, KIND_NODE@, parent) {
            Err(e) => Err(e),
            Ok((pos, line)) => Ok(chunks.insert(pos, node_chunk(id, attrs_of(attrs), (line, line)))),
        }
    }
}

/// What `UpdateNode` does.
pub open spec fn update_node(chunks: Seq<ChunkView>, id: Seq<char>, attrs: Option<Seq<char>>) -> Result<
    Seq<ChunkView>,
    ErrorView,
> {
    match first_index(chunks, with_kind_id(KIND_NODE@, id)) {
        None => Err(ErrorView::NodeNotFound(id)),
        Some(i) => Ok(chunks.update(i, with_merged(chunks[i], attrs_of(attrs)))),
    }
}

/// What `DeleteNode` does.
pub open spec fn delete_node(chunks: Seq<ChunkView>, id: Seq<char>) -> Result<
    Seq<ChunkView>,
    ErrorView,
> {
    match first_index(chunks, with_kind_id(KIND_NODE@, id)) {
        None => Err(ErrorView::NodeNotFound(id)),
        Some(i) => Ok(chunks.remove(i)),
    }
}

/// What `CreateEdge` does.
pub open spec fn create_edge(
    chunks: Seq<ChunkView>,
    from: Seq<char>,
    to: Seq<char>,
    attrs: Option<Seq<char>>,
    parent: Option<Seq<char>>,
) -> Result<Seq<ChunkView>, ErrorView> {
    if first_index(chunks, edge_between(from, to)) is Some {
        Err(ErrorView::EdgeAlreadyExists(from, to))
    } else {
        match slot(chunks, KIND_EDGE@, parent) {
            Err(e) => Err(e),
            Ok((pos, line)) => Ok(
                chunks.insert(pos, edge_chunk(from, to, attrs_of(attrs), (line, line))),
            ),
        }
    }
}

/// What `UpdateEdge` does: it merges into the edge, or appends the edge
/// when it is missing.
pub open spec fn update_edge(
    chunks: Seq<ChunkView>,
    from: Seq<char>,
    to: Seq<char>,
    attrs: Option<Seq<char>>,
) -> Result<Seq<ChunkView>, ErrorView> {
    match first_index(chunks, edge_between(from, to)) {
        Some(i) => Ok(chunks.update(i, with_merged(chunks[i], attrs_of(attrs)))),
        None => {
            let line = next_line(chunks);
            Ok(chunks.push(edge_chunk(from, to, attrs_of(attrs), (line, line))))
        },
    }
}

/// What `DeleteEdge` does.
pub open spec fn delete_edge(chunks: Seq<ChunkView>, from: Seq<char>, to: Seq<char>) -> Result<
    Seq<ChunkView>,
    ErrorView,
> {
    match first_index(chunks, edge_between(from, to)) {
        None => Err(ErrorView::EdgeNotFound(from, to)),
        Some(i) => Ok(chunks.remove(i)),
    }
}

/// What `CreateSubgraph` does. A nested subgraph takes the inside of its
/// parent's range; a top-level one takes a window of ten lines after the
/// last chunk.
pub open spec fn create_subgraph(
    chunks: Seq<ChunkView>,
    id: Option<Seq<char>>,
    parent: Option<Seq<char>>,
) -> Result<Seq<ChunkView>, ErrorView> {
    if id is Some && first_index(chunks, with_kind_id(KIND_SUBGRAPH@, id->0)) is Some {
        Err(ErrorView::SubgraphAlreadyExists(id->0))
    } else {
        match parent {
            Some(p) => match first_index(chunks, with_kind_id(KIND_SUBGRAPH@, p)) {
                None => Err(ErrorView::ParentSubgraphNotFound(p)),
                Some(ppos) => Ok(
                    chunks.insert(
                        ppos + 1,
                        subgraph_chunk(
                            id,
                            (line_after(chunks[ppos].range.0), line_before(chunks[ppos].range.1)),
                        ),
                    ),
                ),
            },
            None => {
                let line = next_line(chunks);
                Ok(chunks.push(subgraph_chunk(id, (line, ten_after(line)))))
            },
        }
    }
}

/// The predicate "lies within `outer`".
pub open spec fn inside(outer: (usize, usize)) -> spec_fn(ChunkView) -> bool {
    |c: ChunkView| within(c.range, outer)
}

/// The predicate "does not satisfy `p`".
pub open spec fn unmatched(p: spec_fn(ChunkView) -> bool) -> spec_fn(ChunkView) -> bool {
    |c: ChunkView| !p(c)
}

/// The predicate "does not lie within `outer`".
pub open spec fn outside(outer: (usize, usize)) -> spec_fn(ChunkView) -> bool {
    unmatched(inside(outer))
}

/// The predicate "is the node `id` or an edge that starts or ends at `id`".
pub open spec fn touching(id: Seq<char>) -> spec_fn(ChunkView) -> bool {
    |c: ChunkView|
        crate::chunk::has_kind_id(c, KIND_NODE@, id) || (c.kind == KIND_EDGE@ && (c.id == Some(id)
            || c.extra == Some(id)))
}

/// What `DeleteSubgraph` does: the chunks whose range lies within the
/// subgraph's range go, the subgraph's own chunk among them.
pub open spec fn delete_subgraph(chunks: Seq<ChunkView>, id: Seq<char>) -> Result<
    Seq<ChunkView>,
    ErrorView,
> {
    match first_index(chunks, with_kind_id(KIND_SUBGRAPH@, id)) {
        None => Err(ErrorView::SubgraphNotFound(id)),
        Some(i) => Ok(chunks.filter(outside(chunks[i].range))),
    }
}

/// What `SetGraphAttr` does.
pub open spec fn set_graph_attr(chunks: Seq<ChunkView>, key: Seq<char>, value: Seq<char>) -> Seq<
    ChunkView,
> {
    match first_index(chunks, with_kind_id(KIND_ID_EQ@, key)) {
        Some(i) => chunks.update(i, ChunkView { extra: Some(value), ..chunks[i] }),
        None => chunks.insert(0, id_eq_chunk(key, value, (1, 1))),
    }
}

/// What `SetNodeDefault` and `SetEdgeDefault` do for the target `target`,
/// which is `node` or `edge`: the existing statement takes the attributes,
/// or a new statement goes before the first attribute statement (`node`) or
/// after the last (`edge`), at the head of the list when there is none.
pub open spec fn set_default(chunks: Seq<ChunkView>, target: Seq<char>, attrs: Seq<char>, after: bool) -> Seq<
    ChunkView,
> {
    match first_index(chunks, with_kind_id(KIND_ATTR_STMT@, target)) {
        Some(i) => chunks.update(i, with_merged(chunks[i], parse_attrs(attrs))),
        None => {
            let pos = if after {
                match last_index(chunks, of_kind(KIND_ATTR_STMT@)) {
                    Some(k) => k + 1,
                    None => 0,
                }
            } else {
                match first_index(chunks, of_kind(KIND_ATTR_STMT@)) {
                    Some(k) => k,
                    None => 0,
                }
            };
            chunks.insert(pos, attr_stmt_chunk(target, parse_attrs(attrs), (1, 1)))
        },
    }
}

/// What `DeleteAttr` does.
pub open spec fn delete_attr(chunks: Seq<ChunkView>, key: Seq<char>) -> Result<
    Seq<ChunkView>,
    ErrorView,
> {
    match first_index(chunks, with_kind_id(KIND_ID_EQ@, key)) {
        None => Err(ErrorView::AttributeNotFound(key)),
        Some(i) => Ok(chunks.remove(i)),
    }
}

/// The chunk list after `cmd`, or the error with which `cmd` is refused.
pub open spec fn apply(chunks: Seq<ChunkView>, cmd: CommandView) -> Result<Seq<ChunkView>, ErrorView> {
    match cmd {
        CommandView::CreateNode { id, attrs, parent } => create_node(chunks, id, attrs, parent),
        CommandView::UpdateNode { id, attrs } => update_node(chunks, id, attrs),
        CommandView::DeleteNode { id } => delete_node(chunks, id),
        CommandView::CreateEdge { from, to, attrs, parent } => create_edge(
            chunks,
            from,
            to,
            attrs,
            parent,
        ),
        CommandView::UpdateEdge { from, to, attrs } => update_edge(chunks, from, to, attrs),
        CommandView::DeleteEdge { from, to } => delete_edge(chunks, from, to),
        CommandView::CreateSubgraph { id, parent } => create_subgraph(chunks, id, parent),
        CommandView::DeleteSubgraph { id } => delete_subgraph(chunks, id),
        CommandView::SetGraphAttr { key, value } => Ok(set_graph_attr(chunks, key, value)),
        CommandView::SetNodeDefault { attrs } => Ok(set_default(chunks, "node"@, attrs, false)),
        CommandView::SetEdgeDefault { attrs } => Ok(set_default(chunks, "edge"@, attrs, true)),
        CommandView::DeleteAttr { key } => delete_attr(chunks, key),
    }
}

/// `last_child` picks, among the first `n` chunks, one that lies strictly
/// inside `outer`; no other such chunk ends on a later line, and none that
/// ends on the same line comes after it. It is `None` exactly when no chunk
/// lies strictly inside `outer`.
pub proof fn lemma_last_child(chunks: Seq<ChunkView>, outer: (usize, usize), n: int)
    requires
        0 <= n <= chunks.len(),
    ensures
        match last_child(chunks, outer, n) {
            Some(k) => 0 <= k < n && strictly_within(chunks[k].range, outer) && forall|j: int|
                0 <= j < n && strictly_within((#[trigger] chunks[j]).range, outer) ==> chunks[j].range.1
                    <= chunks[k].range.1 && (chunks[j].range.1 == chunks[k].range.1 ==> j <= k),
            None => forall|j: int|
                0 <= j < n ==> !strictly_within((#[trigger] chunks[j]).range, outer),
        },
    decreases n,
{
    if n > 0 {
        lemma_last_child(chunks, outer, n - 1);
    }
}

/// The slot for a new chunk lies inside the list or at its end.
pub proof fn lemma_slot_bounds(chunks: Seq<ChunkView>, kind: Seq<char>, parent: Option<Seq<char>>)
    ensures
        slot(chunks, kind, parent) matches Ok((pos, line)) ==> 0 <= pos <= chunks.len(),
{
    match parent {
        Some(p) => {
            lemma_first_index(chunks, with_kind_id(KIND_SUBGRAPH@, p));
            if let Some(ppos) = first_index(chunks, with_kind_id(KIND_SUBGRAPH@, p)) {
                lemma_last_child(chunks, chunks[ppos].range, chunks.len() as int);
            }
        },
        None => {
            lemma_last_index(chunks, top_level_of_kind(chunks, kind));
        },
    }
}

/// Creating a node and then deleting it gives back the list as it was, in
/// which no node had that id: no trace of the node is left.
pub proof fn lemma_create_then_delete_node(
    chunks: Seq<ChunkView>,
    id: Seq<char>,
    attrs: Option<Seq<char>>,
    parent: Option<Seq<char>>,
    created: Seq<ChunkView>,
)
    requires
        apply(chunks, CommandView::CreateNode { id, attrs, parent }) == Ok::<
            Seq<ChunkView>,
            ErrorView,
        >(created),
    ensures
        created.len() == chunks.len() + 1,
        apply(created, CommandView::DeleteNode { id }) == Ok::<Seq<ChunkView>, ErrorView>(chunks),
        forall|j: int| 0 <= j < chunks.len() ==> !has_kind_id_node(#[trigger] chunks[j], id),
{
    let p = with_kind_id(KIND_NODE@, id);
    lemma_first_index(chunks, p);
    lemma_slot_bounds(chunks, KIND_NODE@, parent);
    let (pos, line) = slot(chunks, KIND_NODE@, parent)->Ok_0;
    assert forall|j: int| 0 <= j < pos implies !p(#[trigger] created[j]) by {}
    lemma_first_index_is(created, p, pos);
    assert(created.remove(pos) =~= chunks);
}

/// A node chunk whose id is `id`.
pub open spec fn has_kind_id_node(c: ChunkView, id: Seq<char>) -> bool {
    crate::chunk::has_kind_id(c, KIND_NODE@, id)
}

/// Updating a node leaves every other chunk and the node's own kind, id,
/// range and extra value alone, and gives the node the right-biased union
/// of its attributes with the new ones: a name in the update takes the
/// update's value, every other name keeps its own.
pub proof fn lemma_update_node_merges(
    chunks: Seq<ChunkView>,
    id: Seq<char>,
    attrs: Seq<char>,
    i: int,
)
    requires
        first_index(chunks, with_kind_id(KIND_NODE@, id)) == Some(i),
        sorted_keys(chunks[i].attrs),
    ensures
        apply(chunks, CommandView::UpdateNode { id, attrs: Some(attrs) }) matches Ok(updated)
            && updated.len() == chunks.len() && (forall|j: int|
            0 <= j < chunks.len() && j != i ==> #[trigger] updated[j] == chunks[j])
            && updated[i].kind == chunks[i].kind && updated[i].id == chunks[i].id
            && updated[i].range == chunks[i].range && updated[i].extra == chunks[i].extra
            && sorted_keys(updated[i].attrs) && as_map(updated[i].attrs) == as_map(
            chunks[i].attrs,
        ).union_prefer_right(as_map(parse_attrs(attrs))),
{
    lemma_first_index(chunks, with_kind_id(KIND_NODE@, id));
    crate::grammar::lemma_parse_attrs_sorted(attrs);
    lemma_merge(chunks[i].attrs, parse_attrs(attrs));
}

/// Creating the same edge a second time is refused, whatever the
/// attributes and the parent of the second command.
pub proof fn lemma_create_edge_twice(
    chunks: Seq<ChunkView>,
    from: Seq<char>,
    to: Seq<char>,
    attrs: Option<Seq<char>>,
    parent: Option<Seq<char>>,
    attrs2: Option<Seq<char>>,
    parent2: Option<Seq<char>>,
    created: Seq<ChunkView>,
)
    requires
        apply(chunks, CommandView::CreateEdge { from, to, attrs, parent }) == Ok::<
            Seq<ChunkView>,
            ErrorView,
        >(created),
    ensures
        apply(created, CommandView::CreateEdge { from, to, attrs: attrs2, parent: parent2 })
            == Err::<Seq<ChunkView>, ErrorView>(ErrorView::EdgeAlreadyExists(from, to)),
{
    let p = edge_between(from, to);
    lemma_slot_bounds(chunks, KIND_EDGE@, parent);
    let (pos, line) = slot(chunks, KIND_EDGE@, parent)->Ok_0;
    assert(p(created[pos]));
    lemma_first_index(created, p);
}

/// Updating an edge that is not there succeeds: the edge is appended, one
/// line past the end of the list, with the attributes of the command.
pub proof fn lemma_update_edge_creates(
    chunks: Seq<ChunkView>,
    from: Seq<char>,
    to: Seq<char>,
    attrs: Option<Seq<char>>,
)
    requires
        forall|j: int| 0 <= j < chunks.len() ==> !crate::chunk::is_edge(#[trigger] chunks[j], from, to),
    ensures
        apply(chunks, CommandView::UpdateEdge { from, to, attrs }) == Ok::<
            Seq<ChunkView>,
            ErrorView,
        >(
            chunks.push(
                edge_chunk(from, to, attrs_of(attrs), (next_line(chunks), next_line(chunks))),
            ),
        ),
{
    lemma_first_index(chunks, edge_between(from, to));
}

/// Deleting a subgraph removes its own chunk and every chunk whose range
/// lies within its range, and nothing else: what is left are exactly the
/// chunks outside that range, and nothing is added.
pub proof fn lemma_delete_subgraph(chunks: Seq<ChunkView>, id: Seq<char>, i: int)
    requires
        first_index(chunks, with_kind_id(KIND_SUBGRAPH@, id)) == Some(i),
    ensures
        apply(chunks, CommandView::DeleteSubgraph { id }) matches Ok(left) && (forall|k: int|
            0 <= k < left.len() ==> !within((#[trigger] left[k]).range, chunks[i].range)
                && chunks.contains(left[k])) && (forall|j: int|
            0 <= j < chunks.len() && !within((#[trigger] chunks[j]).range, chunks[i].range)
                ==> left.contains(chunks[j])) && !left.contains(chunks[i]),
{
    lemma_first_index(chunks, with_kind_id(KIND_SUBGRAPH@, id));
    let p = outside(chunks[i].range);
    let left = chunks.filter(p);
    assert forall|k: int| 0 <= k < left.len() implies !within(
        (#[trigger] left[k]).range,
        chunks[i].range,
    ) && chunks.contains(left[k]) by {
        chunks.lemma_filter_pred(p, k);
        chunks.lemma_filter_contains_rev(p, left[k]);
    }
    assert forall|j: int|
        0 <= j < chunks.len() && !within(
            (#[trigger] chunks[j]).range,
            chunks[i].range,
        ) implies left.contains(chunks[j]) by {
        chunks.lemma_filter_contains(p, j);
    }
    if left.contains(chunks[i]) {
        chunks.lemma_filter_contains_rev(p, chunks[i]);
    }
}

/// What to look for in a chunk list.
pub enum Probe<'a> {
    /// Any chunk of this kind.
    Kind(&'a str),
    /// The chunk of this kind and id.
    KindId(&'a str, &'a str),
    /// The edge between these endpoints.
    Edge(&'a str, &'a str),
    /// Any chunk whose range lies within this one.
    Within(usize, usize),
    /// The node of this id and the edges that start or end at it.
    Touching(&'a str),
}

impl<'a> Probe<'a> {
    /// The predicate that the probe stands for.
    pub open spec fn pred(self) -> spec_fn(ChunkView) -> bool {
        match self {
            Probe::Kind(k) => of_kind(k@),
            Probe::KindId(k, id) => with_kind_id(k@, id@),
            Probe::Edge(from, to) => edge_between(from@, to@),
            Probe::Within(a, b) => inside((a, b)),
            Probe::Touching(id) => touching(id@),
        }
    }

    /// Whether `c` is what the probe looks for.
    pub fn test(&self, c: &Chunk) -> (r: bool)
        ensures
            r == (self.pred())(c@),
    {
        match self {
            Probe::Kind(k) => c.is_kind(k),
            Probe::KindId(k, id) => c.is_kind_id(k, id),
            Probe::Edge(from, to) => c.is_edge_between(from, to),
            Probe::Within(a, b) => c.range.0 >= *a && c.range.1 <= *b,
            Probe::Touching(id) => c.is_kind_id(KIND_NODE, id) || (c.is_kind(KIND_EDGE) && (
            crate::text::opt_eq(&c.id, id) || crate::text::opt_eq(&c.extra, id))),
        }
    }
}

/// The position of the first chunk that the probe matches.
pub fn find_first(chunks: &Vec<Chunk>, probe: &Probe) -> (r: Option<usize>)
    ensures
        match r {
            Some(i) => first_index(views(chunks@), probe.pred()) == Some(i as int) && i
                < chunks.len(),
            None => first_index(views(chunks@), probe.pred()) is None,
        },
{
    let mut i: usize = 0;
    while i < chunks.len()
        invariant
            i <= chunks.len(),
            first_index(views(chunks@), probe.pred()) == first_from(
                views(chunks@),
                probe.pred(),
                i as int,
            ),
        decreases chunks.len() - i,
    {
        if probe.test(&chunks[i]) {
            return Some(i);
        }
        i = i + 1;
    }
    None
}

/// The position of the last chunk that the probe matches.
pub fn find_last(chunks: &Vec<Chunk>, probe: &Probe) -> (r: Option<usize>)
    ensures
        match r {
            Some(i) => last_index(views(chunks@), probe.pred()) == Some(i as int) && i
                < chunks.len(),
            None => last_index(views(chunks@), probe.pred()) is None,
        },
{
    let mut i: usize = chunks.len();
    while i > 0
        invariant
            i <= chunks.len(),
            last_index(views(chunks@), probe.pred()) == last_before(
                views(chunks@),
                probe.pred(),
                i as int,
            ),
        decreases i,
    {
        if probe.test(&chunks[i - 1]) {
            return Some(i - 1);
        }
        i = i - 1;
    }
    None
}

/// Computes [`line_after`].
pub fn after(n: usize) -> (r: usize)
    ensures
        r == line_after(n),
{
    if n < usize::MAX {
        n + 1
    } else {
        n
    }
}

/// Computes [`next_line`].
pub fn line_past_end(chunks: &Vec<Chunk>) -> (r: usize)
    ensures
        r == next_line(views(chunks@)),
{
    if chunks.len() == 0 {
        1
    } else {
        after(chunks[chunks.len() - 1].range.1)
    }
}

/// Computes [`last_child`] over the whole list.
pub fn find_last_child(chunks: &Vec<Chunk>, outer: (usize, usize)) -> (r: Option<usize>)
    ensures
        match r {
            Some(k) => last_child(views(chunks@), outer, chunks.len() as int) == Some(k as int)
                && k < chunks.len(),
            None => last_child(views(chunks@), outer, chunks.len() as int) is None,
        },
{
    let mut best: Option<usize> = None;
    let mut i: usize = 0;
    while i < chunks.len()
        invariant
            i <= chunks.len(),
            match best {
                Some(k) => last_child(views(chunks@), outer, i as int) == Some(k as int) && k < i,
                None => last_child(views(chunks@), outer, i as int) is None,
            },
        decreases chunks.len() - i,
    {
        let range = chunks[i].range;
        if range.0 > outer.0 && range.1 < outer.1 {
            let better = match best {
                Some(k) => chunks[k].range.1 <= range.1,
                None => true,
            };
            if better {
                best = Some(i);
            }
        }
        i = i + 1;
    }
    best
}

/// Computes [`is_top_level`] for the chunk at `i`.
pub fn top_level_at(chunks: &Vec<Chunk>, i: usize) -> (r: bool)
    requires
        i < chunks.len(),
    ensures
        r == is_top_level(views(chunks@), chunks@[i as int]@),
{
    let range = chunks[i].range;
    let mut j: usize = 0;
    while j < chunks.len()
        invariant
            j <= chunks.len(),
            i < chunks.len(),
            range == chunks@[i as int]@.range,
            forall|k: int|
                0 <= k < j ==> !((#[trigger] views(chunks@)[k]).kind == KIND_SUBGRAPH@
                    && strictly_within(range, views(chunks@)[k].range)),
        decreases chunks.len() - j,
    {
        let outer = chunks[j].range;
        if range.0 > outer.0 && range.1 < outer.1 && chunks[j].is_kind(KIND_SUBGRAPH) {
            assert(views(chunks@)[j as int].kind == KIND_SUBGRAPH@);
            return false;
        }
        j = j + 1;
    }
    true
}

/// The position of the last top-level chunk of kind `kind`.
pub fn find_last_top_level(chunks: &Vec<Chunk>, kind: &str) -> (r: Option<usize>)
    ensures
        match r {
            Some(i) => last_index(views(chunks@), top_level_of_kind(views(chunks@), kind@))
                == Some(i as int) && i < chunks.len(),
            None => last_index(views(chunks@), top_level_of_kind(views(chunks@), kind@)) is None,
        },
{
    let mut i: usize = chunks.len();
    while i > 0
        invariant
            i <= chunks.len(),
            last_index(views(chunks@), top_level_of_kind(views(chunks@), kind@)) == last_before(
                views(chunks@),
                top_level_of_kind(views(chunks@), kind@),
                i as int,
            ),
        decreases i,
    {
        if chunks[i - 1].is_kind(kind) && top_level_at(chunks, i - 1) {
            return Some(i - 1);
        }
        i = i - 1;
    }
    None
}

/// Computes [`slot`].
pub fn find_slot(chunks: &Vec<Chunk>, kind: &str, parent: &Option<String>) -> (r: Result<
    (usize, usize),
    Error,
>)
    ensures
        match r {
            Ok((pos, line)) => slot(views(chunks@), kind@, crate::chunk::opt_view(*parent)) == Ok::<
                (int, usize),
                ErrorView,
            >((pos as int, line)) && pos <= chunks.len(),
            Err(e) => slot(views(chunks@), kind@, crate::chunk::opt_view(*parent)) == Err::<
                (int, usize),
                ErrorView,
            >(e@),
        },
{
    match parent {
        Some(p) => match find_first(chunks, &Probe::KindId(KIND_SUBGRAPH, p.as_str())) {
            None => Err(Error::ParentSubgraphNotFound(p.clone())),
            Some(ppos) => match find_last_child(chunks, chunks[ppos].range) {
                Some(k) => Ok((k + 1, after(chunks[k].range.1))),
                None => Ok((ppos + 1, after(chunks[ppos].range.0))),
            },
        },
        None => {
            let pos = match find_last_top_level(chunks, kind) {
                Some(k) => k + 1,
                None => chunks.len(),
            };
            let line = if pos > 0 {
                after(chunks[pos - 1].range.1)
            } else {
                1
            };
            Ok((pos, line))
        },
    }
}

/// The attributes that an optional attribute string describes.
pub fn attrs_from(a: &Option<String>) -> (r: Attrs)
    ensures
        r@ == attrs_of(crate::chunk::opt_view(*a)),
{
    match a {
        Some(t) => parse_attribute_string(t.as_str()),
        None => Attrs::new(),
    }
}

/// Inserting a chunk inserts its model.
pub proof fn lemma_views_insert(s: Seq<Chunk>, i: int, c: Chunk)
    requires
        0 <= i <= s.len(),
    ensures
        views(s.insert(i, c)) == views(s).insert(i, c@),
{
}

/// Removing a chunk removes its model.
pub proof fn lemma_views_remove(s: Seq<Chunk>, i: int)
    requires
        0 <= i < s.len(),
    ensures
        views(s.remove(i)) == views(s).remove(i),
{
}

/// Appending a chunk appends its model.
pub proof fn lemma_views_push(s: Seq<Chunk>, c: Chunk)
    ensures
        views(s.push(c)) == views(s).push(c@),
{
}

/// Removes every chunk that the probe matches; the others keep their order.
pub fn remove_all(chunks: &mut Vec<Chunk>, probe: &Probe)
    ensures
        views(final(chunks)@) == views(old(chunks)@).filter(unmatched(probe.pred())),
{
    let mut all: Vec<Chunk> = Vec::new();
    core::mem::swap(chunks, &mut all);
    let ghost src = views(all@);
    let ghost keep = unmatched(probe.pred());
    assert(src.take(0).filter(keep) =~= Seq::<ChunkView>::empty()) by {
        reveal(Seq::filter);
    }
    for c in it: all
        invariant
            src == views(it.seq()),
            keep == unmatched(probe.pred()),
            views(chunks@) == src.take(it.index() as int).filter(keep),
    {
        let ghost i = it.index() as int;
        proof {
            assert(src.take(i + 1) =~= src.take(i).push(c@));
            src.take(i).lemma_filter_push(c@, keep);
        }
        if !probe.test(&c) {
            proof {
                lemma_views_push(chunks@, c);
            }
            chunks.push(c);
        }
    }
    assert(src.take(src.len() as int) =~= src);
}

/// Merges `extra` into the attributes of the chunk at `i`.
fn merge_at(chunks: &mut Vec<Chunk>, i: usize, extra: &Attrs)
    requires
        i < old(chunks).len(),
    ensures
        views(final(chunks)@) == views(old(chunks)@).update(
            i as int,
            with_merged(views(old(chunks)@)[i as int], extra@),
        ),
{
    chunks[i].attrs.extend(extra);
    assert(views(chunks@) =~= views(old(chunks)@).update(
        i as int,
        with_merged(views(old(chunks)@)[i as int], extra@),
    ));
}

/// Puts a new chunk of kind `kind` into the slot that `parent` calls for.
fn create_in_slot(
    chunks: &mut Vec<Chunk>,
    kind: &str,
    id: &String,
    extra: Option<String>,
    attrs: &Option<String>,
    parent: &Option<String>,
) -> (r: Result<(), Error>)
    ensures
        match slot(views(old(chunks)@), kind@, crate::chunk::opt_view(*parent)) {
            Ok((pos, line)) => r is Ok && views(final(chunks)@) == views(old(chunks)@).insert(
                pos,
                ChunkView {
                    kind: kind@,
                    id: Some(id@),
                    attrs: attrs_of(crate::chunk::opt_view(*attrs)),
                    range: (line, line),
                    extra: crate::chunk::opt_view(extra),
                },
            ),
            Err(e) => r matches Err(x) && x@ == e && views(final(chunks)@) == views(old(chunks)@),
        },
{
    match find_slot(chunks, kind, parent) {
        Err(e) => Err(e),
        Ok((pos, line)) => {
            let c = Chunk::new(kind, Some(id.clone()), attrs_from(attrs), (line, line), extra);
            proof {
                lemma_views_insert(chunks@, pos as int, c);
            }
            chunks.insert(pos, c);
            Ok(())
        },
    }
}

/// Removes the first chunk that the probe matches, or fails with `missing`.
fn remove_first(chunks: &mut Vec<Chunk>, probe: &Probe, missing: Error) -> (r: Result<(), Error>)
    ensures
        match first_index(views(old(chunks)@), probe.pred()) {
            Some(i) => r is Ok && views(final(chunks)@) == views(old(chunks)@).remove(i),
            None => r == Err::<(), Error>(missing) && views(final(chunks)@) == views(old(chunks)@),
        },
{
    match find_first(chunks, probe) {
        None => Err(missing),
        Some(i) => {
            proof {
                lemma_views_remove(chunks@, i as int);
            }
            let _ = chunks.remove(i);
            Ok(())
        },
    }
}

/// Computes [`set_default`].
fn apply_default(chunks: &mut Vec<Chunk>, target: &str, attrs: &String, after: bool)
    ensures
        views(final(chunks)@) == set_default(views(old(chunks)@), target@, attrs@, after),
{
    let new_attrs = parse_attribute_string(attrs.as_str());
    match find_first(chunks, &Probe::KindId(KIND_ATTR_STMT, target)) {
        Some(i) => {
            merge_at(chunks, i, &new_attrs);
        },
        None => {
            let pos = if after {
                match find_last(chunks, &Probe::Kind(KIND_ATTR_STMT)) {
                    Some(k) => k + 1,
                    None => 0,
                }
            } else {
                match find_first(chunks, &Probe::Kind(KIND_ATTR_STMT)) {
                    Some(k) => k,
                    None => 0,
                }
            };
            let c = Chunk::new(
                KIND_ATTR_STMT,
                Some(String::from_str(target)),
                new_attrs,
                (1, 1),
                None,
            );
            proof {
                lemma_views_insert(chunks@, pos as int, c);
            }
            chunks.insert(pos, c);
        },
    }
}

/// Applies one command to the chunk list.
///
/// The command takes effect as a whole or not at all: when it is refused,
/// the list is as it was.
pub fn apply_command(chunks: &mut Vec<Chunk>, command: &DotCommand) -> (r: Result<(), Error>)
    ensures
        match apply(views(old(chunks)@), command@) {
            Ok(cs) => r is Ok && views(final(chunks)@) == cs,
            Err(e) => r matches Err(x) && x@ == e && views(final(chunks)@) == views(old(chunks)@),
        },
{
    match command {
        DotCommand::CreateNode { id, attrs, parent } => {
            if find_first(chunks, &Probe::KindId(KIND_NODE, id.as_str())).is_some() {
                return Err(Error::NodeAlreadyExists(id.clone()));
            }
            create_in_slot(chunks, KIND_NODE, id, None, attrs, parent)
        },
        DotCommand::UpdateNode { id, attrs } => {
            match find_first(chunks, &Probe::KindId(KIND_NODE, id.as_str())) {
                None => Err(Error::NodeNotFound(id.clone())),
                Some(i) => {
                    let extra = attrs_from(attrs);
                    merge_at(chunks, i, &extra);
                    Ok(())
                },
            }
        },
        DotCommand::DeleteNode { id } => remove_first(
            chunks,
            &Probe::KindId(KIND_NODE, id.as_str()),
            Error::NodeNotFound(id.clone()),
        ),
        DotCommand::CreateEdge { from, to, attrs, parent } => {
            if find_first(chunks, &Probe::Edge(from.as_str(), to.as_str())).is_some() {
                return Err(Error::EdgeAlreadyExists(from.clone(), to.clone()));
            }
            create_in_slot(chunks, KIND_EDGE, from, Some(to.clone()), attrs, parent)
        },
        DotCommand::UpdateEdge { from, to, attrs } => {
            let extra = attrs_from(attrs);
            match find_first(chunks, &Probe::Edge(from.as_str(), to.as_str())) {
                Some(i) => {
                    merge_at(chunks, i, &extra);
                },
                None => {
                    let line = line_past_end(chunks);
                    let c = Chunk::new(
                        KIND_EDGE,
                        Some(from.clone()),
                        extra,
                        (line, line),
                        Some(to.clone()),
                    );
                    proof {
                        lemma_views_push(chunks@, c);
                    }
                    chunks.push(c);
                },
            }
            Ok(())
        },
        DotCommand::DeleteEdge { from, to } => remove_first(
            chunks,
            &Probe::Edge(from.as_str(), to.as_str()),
            Error::EdgeNotFound(from.clone(), to.clone()),
        ),
        DotCommand::CreateSubgraph { id, parent } => {
            if let Some(name) = id {
                if find_first(chunks, &Probe::KindId(KIND_SUBGRAPH, name.as_str())).is_some() {
                    return Err(Error::SubgraphAlreadyExists(name.clone()));
                }
            }
            match parent {
                Some(p) => match find_first(chunks, &Probe::KindId(KIND_SUBGRAPH, p.as_str())) {
                    None => Err(Error::ParentSubgraphNotFound(p.clone())),
                    Some(ppos) => {
                        let outer = chunks[ppos].range;
                        let end = if outer.1 > 0 {
                            outer.1 - 1
                        } else {
                            outer.1
                        };
                        let c = Chunk::new(
                            KIND_SUBGRAPH,
                            clone_opt(id),
                            Attrs::new(),
                            (after(outer.0), end),
                            None,
                        );
                        proof {
                            lemma_views_insert(chunks@, ppos as int + 1, c);
                        }
                        chunks.insert(ppos + 1, c);
                        Ok(())
                    },
                },
                None => {
                    let line = line_past_end(chunks);
                    let end = if line <= usize::MAX - 10 {
                        line + 10
                    } else {
                        usize::MAX
                    };
                    let c = Chunk::new(KIND_SUBGRAPH, clone_opt(id), Attrs::new(), (line, end), None);
                    proof {
                        lemma_views_push(chunks@, c);
                    }
                    chunks.push(c);
                    Ok(())
                },
            }
        },
        DotCommand::DeleteSubgraph { id } => {
            match find_first(chunks, &Probe::KindId(KIND_SUBGRAPH, id.as_str())) {
                None => Err(Error::SubgraphNotFound(id.clone())),
                Some(i) => {
                    let outer = chunks[i].range;
                    remove_all(chunks, &Probe::Within(outer.0, outer.1));
                    Ok(())
                },
            }
        },
        DotCommand::SetGraphAttr { key, value } => {
            match find_first(chunks, &Probe::KindId(KIND_ID_EQ, key.as_str())) {
                Some(i) => {
                    chunks[i].extra = Some(value.clone());
                },
                None => {
                    let c = Chunk::new(
                        KIND_ID_EQ,
                        Some(key.clone()),
                        Attrs::new(),
                        (1, 1),
                        Some(value.clone()),
                    );
                    proof {
                        lemma_views_insert(chunks@, 0, c);
                    }
                    chunks.insert(0, c);
                },
            }
            Ok(())
        },
        DotCommand::SetNodeDefault { attrs } => {
            apply_default(chunks, "node", attrs, false);
            Ok(())
        },
        DotCommand::SetEdgeDefault { attrs } => {
            apply_default(chunks, "edge", attrs, true);
            Ok(())
        },
        DotCommand::DeleteAttr { key } => remove_first(
            chunks,
            &Probe::KindId(KIND_ID_EQ, key.as_str()),
            Error::AttributeNotFound(key.clone()),
        ),
    }
}

} // verus!
