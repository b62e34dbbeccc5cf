//! The tool adapter: named tool calls with string parameters become edit
//! commands or read-only queries on a chunk list.

use vstd::prelude::*;
use vstd::string::StringExecFns;
use crate::attrs::{lookup, AttrSeq, Attrs};
use crate::chunk::{
    strictly_within, views, with_kind_id, Chunk, ChunkView, KIND_EDGE, KIND_NODE, KIND_SUBGRAPH,
};
use crate::commands::{lemma_views_push, CommandView, DotCommand};
use crate::error::{Error, ErrorView};
use crate::seqs::first_index;
use crate::text::{opt_eq, str_eq};

verus! {

/// The string parameters of a tool call, by name. A parameter that the call
/// does not give as a string is absent.
pub type ToolParams = Attrs;

/// One attribute of a command's attribute string: `name=value`, the value
/// in quotes when `quoted`; nothing when the parameter is absent.
pub open spec fn piece(name: Seq<char>, value: Option<Seq<char>>, quoted: bool) -> Option<
    Seq<char>,
> {
    match value {
        None => None,
        Some(v) => Some(
            if quoted {
                name + seq!['=', '"'] + v + seq!['"']
            } else {
                name + seq!['='] + v
            },
        ),
    }
}

/// `acc` with `p` after it, a space between the two.
pub open spec fn with_piece(acc: Option<Seq<char>>, p: Option<Seq<char>>) -> Option<Seq<char>> {
    match (acc, p) {
        (None, _) => p,
        (Some(a), None) => Some(a),
        (Some(a), Some(b)) => Some(a + seq![' '] + b),
    }
}

/// The attribute string of a node tool call: `label`, `shape` and `color`,
/// as far as they are given.
pub open spec fn node_attr_text(params: AttrSeq) -> Option<Seq<char>> {
    with_piece(
        with_piece(
            piece("label"@, lookup(params, "label"@), true),
            piece("shape"@, lookup(params, "shape"@), false),
        ),
        piece("color"@, lookup(params, "color"@), true),
    )
}

/// The attribute string of an edge tool call: `label` and `color`, as far
/// as they are given.
pub open spec fn edge_attr_text(params: AttrSeq) -> Option<Seq<char>> {
    with_piece(
        piece("label"@, lookup(params, "label"@), true),
        piece("color"@, lookup(params, "color"@), true),
    )
}

/// The command that a tool call stands for, or the error with which it is
/// refused: an unknown tool, or a parameter that the tool needs and the
/// call lacks. `update_node` needs one attribute at least.
pub open spec fn tool_command(name: Seq<char>, params: AttrSeq) -> Result<CommandView, ErrorView> {
    if name == "create_node"@ {
        match lookup(params, "id"@) {
            None => Err(ErrorView::MissingParameter("id"@)),
            Some(id) => Ok(
                CommandView::CreateNode {
                    id,
                    attrs: node_attr_text(params),
                    parent: lookup(params, "parent"@),
                },
            ),
        }
    } else if name == "update_node"@ {
        match lookup(params, "id"@) {
            None => Err(ErrorView::MissingParameter("id"@)),
            Some(id) => match node_attr_text(params) {
                None => Err(ErrorView::MissingParameter("attributes"@)),
                Some(text) => Ok(CommandView::UpdateNode { id, attrs: Some(text) }),
            },
        }
    } else if name == "delete_node"@ {
        match lookup(params, "id"@) {
            None => Err(ErrorView::MissingParameter("id"@)),
            Some(id) => Ok(CommandView::DeleteNode { id }),
        }
    } else if name == "create_edge"@ {
        match lookup(params, "from"@) {
            None => Err(ErrorView::MissingParameter("from"@)),
            Some(from) => match lookup(params, "to"@) {
                None => Err(ErrorView::MissingParameter("to"@)),
                Some(to) => Ok(
                    CommandView::CreateEdge {
                        from,
                        to,
                        attrs: edge_attr_text(params),
                        parent: lookup(params, "parent"@),
                    },
                ),
            },
        }
    } else if name == "delete_edge"@ {
        match lookup(params, "from"@) {
            None => Err(ErrorView::MissingParameter("from"@)),
            Some(from) => match lookup(params, "to"@) {
                None => Err(ErrorView::MissingParameter("to"@)),
                Some(to) => Ok(CommandView::DeleteEdge { from, to }),
            },
        }
    } else if name == "create_cluster"@ {
        match lookup(params, "id"@) {
            None => Err(ErrorView::MissingParameter("id"@)),
            Some(id) => Ok(CommandView::CreateSubgraph { id: Some(id), parent: None }),
        }
    } else {
        Err(ErrorView::UnknownTool(name))
    }
}

/// The model of an optional reference to a string.
pub open spec fn ref_view(o: Option<&String>) -> Option<Seq<char>> {
    match o {
        Some(t) => Some(t@),
        None => None,
    }
}

/// Appends one attribute to the attribute string `acc`.
fn add_piece(acc: Option<String>, name: &str, value: Option<&String>, quoted: bool) -> (r: Option<
    String,
>)
    ensures
        crate::chunk::opt_view(r) == with_piece(
            crate::chunk::opt_view(acc),
            piece(name@, ref_view(value), quoted),
        ),
{
    match value {
        None => acc,
        Some(v) => {
            let ghost prior = crate::chunk::opt_view(acc);
            let mut text = match acc {
                Some(a) => {
                    let mut t = a;
                    t.push(' ');
                    t
                },
                None => String::new(),
            };
            text.append(name);
            text.push('=');
            if quoted {
                text.push('"');
                text.append(v.as_str());
                text.push('"');
            } else {
                text.append(v.as_str());
            }
            proof {
                match prior {
                    Some(a) => {
                        let p = piece(name@, ref_view(value), quoted)->0;
                    },
                    None => {
                        let p = piece(name@, ref_view(value), quoted)->0;
                    },
                }
            }
            Some(text)
        },
    }
}

/// Computes [`node_attr_text`].
fn node_attrs(params: &Attrs) -> (r: Option<String>)
    ensures
        crate::chunk::opt_view(r) == node_attr_text(params@),
{
    let a = add_piece(None, "label", params.get("label"), true);
    let b = add_piece(a, "shape", params.get("shape"), false);
    add_piece(b, "color", params.get("color"), true)
}

/// Computes [`edge_attr_text`].
fn edge_attrs(params: &Attrs) -> (r: Option<String>)
    ensures
        crate::chunk::opt_view(r) == edge_attr_text(params@),
{
    let a = add_piece(None, "label", params.get("label"), true);
    add_piece(a, "color", params.get("color"), true)
}

/// The parameter `name`, or the error that it is missing.
fn required(params: &Attrs, name: &str) -> (r: Result<String, Error>)
    ensures
        match lookup(params@, name@) {
            Some(v) => r matches Ok(t) && t@ == v,
            None => r matches Err(e) && e@ == ErrorView::MissingParameter(name@),
        },
{
    match params.get(name) {
        Some(v) => Ok(v.clone()),
        None => Err(Error::MissingParameter(String::from_str(name))),
    }
}

/// The parameter `name`, if the call has it.
fn optional(params: &Attrs, name: &str) -> (r: Option<String>)
    ensures
        crate::chunk::opt_view(r) == lookup(params@, name@),
{
    match params.get(name) {
        Some(v) => Some(v.clone()),
        None => None,
    }
}

/// Turns a tool call into the command that it stands for. `params` holds
/// the string parameters of the call by name.
pub fn tool_call_to_command(tool_name: &str, params: &ToolParams) -> (r: Result<DotCommand, Error>)
    ensures
        match tool_command(tool_name@, params@) {
            Ok(c) => r matches Ok(cmd) && cmd@ == c,
            Err(e) => r matches Err(x) && x@ == e,
        },
{
    if str_eq(tool_name, "create_node") {
        match required(params, "id") {
            Err(e) => Err(e),
            Ok(id) => Ok(
                DotCommand::CreateNode {
                    id,
                    attrs: node_attrs(params),
                    parent: optional(params, "parent"),
                },
            ),
        }
    } else if str_eq(tool_name, "update_node") {
        match required(params, "id") {
            Err(e) => Err(e),
            Ok(id) => match node_attrs(params) {
                None => Err(Error::MissingParameter(String::from_str("attributes"))),
                Some(text) => Ok(DotCommand::UpdateNode { id, attrs: Some(text) }),
            },
        }
    } else if str_eq(tool_name, "delete_node") {
        match required(params, "id") {
            Err(e) => Err(e),
            Ok(id) => Ok(DotCommand::DeleteNode { id }),
        }
    } else if str_eq(tool_name, "create_edge") {
        match required(params, "from") {
            Err(e) => Err(e),
            Ok(from) => match required(params, "to") {
                Err(e) => Err(e),
                Ok(to) => Ok(
                    DotCommand::CreateEdge {
                        from,
                        to,
                        attrs: edge_attrs(params),
                        parent: optional(params, "parent"),
                    },
                ),
            },
        }
    } else if str_eq(tool_name, "delete_edge") {
        match required(params, "from") {
            Err(e) => Err(e),
            Ok(from) => match required(params, "to") {
                Err(e) => Err(e),
                Ok(to) => Ok(DotCommand::DeleteEdge { from, to }),
            },
        }
    } else if str_eq(tool_name, "create_cluster") {
        match required(params, "id") {
            Err(e) => Err(e),
            Ok(id) => Ok(DotCommand::CreateSubgraph { id: Some(id), parent: None }),
        }
    } else {
        Err(Error::UnknownTool(String::from_str(tool_name)))
    }
}

/// What a query returns.
#[derive(Debug)]
pub enum QueryResult {
    /// The node that `get_node` asked for.
    Node(Chunk),
    /// The nodes that `list_nodes` found, in list order.
    Nodes(Vec<Chunk>),
    /// The edges that `get_edges` found, in list order.
    Edges(Vec<Chunk>),
}

/// The mathematical model of a [`QueryResult`].
pub enum QueryView {
    Node(ChunkView),
    Nodes(Seq<ChunkView>),
    Edges(Seq<ChunkView>),
}

impl View for QueryResult {
    type V = QueryView;

    open spec fn view(&self) -> QueryView {
        match self {
            QueryResult::Node(c) => QueryView::Node(c@),
            QueryResult::Nodes(v) => QueryView::Nodes(views(v@)),
            QueryResult::Edges(v) => QueryView::Edges(views(v@)),
        }
    }
}

/// The predicate "is a node", and, when a parent range is given, "lies
/// strictly inside it".
pub open spec fn node_in(outer: Option<(usize, usize)>) -> spec_fn(ChunkView) -> bool {
    |c: ChunkView|
        c.kind == KIND_NODE@ && match outer {
            Some(range) => strictly_within(c.range, range),
            None => true,
        }
}

/// The predicate "is an edge that starts or ends at `id`".
pub open spec fn edge_at(id: Seq<char>) -> spec_fn(ChunkView) -> bool {
    |c: ChunkView| c.kind == KIND_EDGE@ && (c.id == Some(id) || c.extra == Some(id))
}

/// The nodes that `list_nodes` returns: all nodes when no parent is named,
/// the nodes strictly inside the parent's range when the parent is there,
/// and none when it is not.
pub open spec fn listed_nodes(chunks: Seq<ChunkView>, parent: Option<Seq<char>>) -> Seq<ChunkView> {
    match parent {
        None => chunks.filter(node_in(None)),
        Some(p) => match first_index(chunks, with_kind_id(KIND_SUBGRAPH@, p)) {
            Some(i) => chunks.filter(node_in(Some(chunks[i].range))),
            None => Seq::empty(),
        },
    }
}

/// The answer to a query, or the error with which it is refused.
pub open spec fn query(name: Seq<char>, params: AttrSeq, chunks: Seq<ChunkView>) -> Result<
    QueryView,
    ErrorView,
> {
    if name == "get_node"@ {
        match lookup(params, "id"@) {
            None => Err(ErrorView::MissingParameter("id"@)),
            Some(id) => match first_index(chunks, with_kind_id(KIND_NODE@, id)) {
                Some(i) => Ok(QueryView::Node(chunks[i])),
                None => Err(ErrorView::NodeNotFound(id)),
            },
        }
    } else if name == "list_nodes"@ {
        Ok(QueryView::Nodes(listed_nodes(chunks, lookup(params, "parent"@))))
    } else if name == "get_edges"@ {
        match lookup(params, "node_id"@) {
            None => Err(ErrorView::MissingParameter("node_id"@)),
            Some(id) => Ok(QueryView::Edges(chunks.filter(edge_at(id)))),
        }
    } else {
        Err(ErrorView::UnknownTool(name))
    }
}

/// Whether `name` names a query: a tool that reads the chunk list and
/// changes nothing.
pub open spec fn names_query(name: Seq<char>) -> bool {
    name == "get_node"@ || name == "list_nodes"@ || name == "get_edges"@
}

/// Whether `tool_name` names a query rather than an edit.
pub fn is_query_tool(tool_name: &str) -> (r: bool)
    ensures
        r == names_query(tool_name@),
{
    str_eq(tool_name, "get_node") || str_eq(tool_name, "list_nodes") || str_eq(
        tool_name,
        "get_edges",
    )
}

/// A query is refused as unknown exactly when its name names no query.
pub proof fn lemma_query_known(name: Seq<char>, params: AttrSeq, chunks: Seq<ChunkView>)
    ensures
        query(name, params, chunks) == Err::<QueryView, ErrorView>(ErrorView::UnknownTool(name))
            <==> !names_query(name),
{
}

/// Copies the nodes of the list, those strictly inside `outer` when it is
/// given.
fn collect_nodes(chunks: &[Chunk], outer: Option<(usize, usize)>) -> (r: Vec<Chunk>)
    ensures
        views(r@) == views(chunks@).filter(node_in(outer)),
{
    let mut out: Vec<Chunk> = Vec::new();
    let mut i: usize = 0;
    let ghost all = views(chunks@);
    let ghost keep = node_in(outer);
    assert(all.take(0).filter(keep) =~= Seq::<ChunkView>::empty()) by {
        reveal(Seq::filter);
    }
    while i < chunks.len()
        invariant
            i <= chunks.len(),
            all == views(chunks@),
            keep == node_in(outer),
            views(out@) == all.take(i as int).filter(keep),
        decreases chunks.len() - i,
    {
        proof {
            assert(all.take(i as int + 1) =~= all.take(i as int).push(chunks@[i as int]@));
            all.take(i as int).lemma_filter_push(chunks@[i as int]@, keep);
        }
        let c = &chunks[i];
        let inside = match outer {
            Some(range) => c.range.0 > range.0 && c.range.1 < range.1,
            None => true,
        };
        if c.is_kind(KIND_NODE) && inside {
            let copy = c.clone();
            proof {
                lemma_views_push(out@, copy);
            }
            out.push(copy);
        }
        i = i + 1;
    }
    assert(all.take(chunks.len() as int) =~= all);
    out
}

/// Copies the edges of the list that start or end at `id`.
fn collect_edges(chunks: &[Chunk], id: &str) -> (r: Vec<Chunk>)
    ensures
        views(r@) == views(chunks@).filter(edge_at(id@)),
{
    let mut out: Vec<Chunk> = Vec::new();
    let mut i: usize = 0;
    let ghost all = views(chunks@);
    let ghost keep = edge_at(id@);
    assert(all.take(0).filter(keep) =~= Seq::<ChunkView>::empty()) by {
        reveal(Seq::filter);
    }
    while i < chunks.len()
        invariant
            i <= chunks.len(),
            all == views(chunks@),
            keep == edge_at(id@),
            views(out@) == all.take(i as int).filter(keep),
        decreases chunks.len() - i,
    {
        proof {
            assert(all.take(i as int + 1) =~= all.take(i as int).push(chunks@[i as int]@));
            all.take(i as int).lemma_filter_push(chunks@[i as int]@, keep);
        }
        let c = &chunks[i];
        if c.is_kind(KIND_EDGE) && (opt_eq(&c.id, id) || opt_eq(&c.extra, id)) {
            let copy = c.clone();
            proof {
                lemma_views_push(out@, copy);
            }
            out.push(copy);
        }
        i = i + 1;
    }
    assert(all.take(chunks.len() as int) =~= all);
    out
}

/// The position of the first chunk of kind `kind` and id `id` in a slice.
fn position_of(chunks: &[Chunk], kind: &str, id: &str) -> (r: Option<usize>)
    ensures
        match r {
            Some(i) => first_index(views(chunks@), with_kind_id(kind@, id@)) == Some(i as int) && i
                < chunks.len(),
            None => first_index(views(chunks@), with_kind_id(kind@, id@)) is None,
        },
{
    let mut i: usize = 0;
    while i < chunks.len()
        invariant
            i <= chunks.len(),
            first_index(views(chunks@), with_kind_id(kind@, id@)) == crate::seqs::first_from(
                views(chunks@),
                with_kind_id(kind@, id@),
                i as int,
            ),
        decreases chunks.len() - i,
    {
        if chunks[i].is_kind_id(kind, id) {
            return Some(i);
        }
        i = i + 1;
    }
    None
}

/// Answers a read-only query on the chunk list: `get_node`, `list_nodes`
/// or `get_edges`. The list is not changed.
pub fn execute_query_tool(tool_name: &str, params: &ToolParams, chunks: &[Chunk]) -> (r: Result<
    QueryResult,
    Error,
>)
    ensures
        match query(tool_name@, params@, views(chunks@)) {
            Ok(q) => r matches Ok(found) && found@ == q,
            Err(e) => r matches Err(x) && x@ == e,
        },
{
    if str_eq(tool_name, "get_node") {
        match required(params, "id") {
            Err(e) => Err(e),
            Ok(id) => match position_of(chunks, KIND_NODE, id.as_str()) {
                Some(i) => Ok(QueryResult::Node(chunks[i].clone())),
                None => Err(Error::NodeNotFound(id)),
            },
        }
    } else if str_eq(tool_name, "list_nodes") {
        match params.get("parent") {
            None => Ok(QueryResult::Nodes(collect_nodes(chunks, None))),
            Some(p) => match position_of(chunks, KIND_SUBGRAPH, p.as_str()) {
                Some(i) => Ok(QueryResult::Nodes(collect_nodes(chunks, Some(chunks[i].range)))),
                None => {
                    let none: Vec<Chunk> = Vec::new();
                    assert(views(none@) =~= Seq::<ChunkView>::empty());
                    Ok(QueryResult::Nodes(none))
                },
            },
        }
    } else if str_eq(tool_name, "get_edges") {
        match required(params, "node_id") {
            Err(e) => Err(e),
            Ok(id) => Ok(QueryResult::Edges(collect_edges(chunks, id.as_str()))),
        }
    } else {
        Err(Error::UnknownTool(String::from_str(tool_name)))
    }
}

/// The instructions that go before a conversation with a model that edits
/// graphs through these tools.
pub const SYSTEM_PROMPT: &'static str = "\
    You are a graph modification assistant. Users will ask you to modify DOT graphs.\n\n\
    You have access to tools to query and modify the graph. Use these tools to:\n\
    1. Query current graph state (get_node, list_nodes, get_edges)\n\
    2. Create new elements (create_node, create_edge, create_cluster)\n\
    3. Update existing elements (update_node)\n\
    4. Delete elements (delete_node, delete_edge)\n\n\
    When the user asks to modify a graph:\n\
    1. First query relevant information if needed\n\
    2. Then make the requested modifications\n\
    3. Be concise - don't query information you don't need\n\n\
    Example workflow for \"add a node called Server connected to DB\":\n\
    1. Call create_node with id=\"Server\", label=\"Server\"\n\
    2. Call create_edge with from=\"Server\", to=\"DB\"\n\n\
    Example workflow for \"change node A to be red\":\n\
    1. Call update_node with id=\"A\", color=\"red\"\n\n\
    Keep responses brief. Focus on the tools, not explanations.";

/// The system prompt, as an owned string.
pub fn get_system_prompt() -> (r: String)
    ensures
        r@ == SYSTEM_PROMPT@,
{
    String::from_str(SYSTEM_PROMPT)
}

/// One parameter of a tool.
#[derive(Debug)]
pub struct ToolParameter {
    pub name: String,
    pub description: String,
    /// Whether a call without the parameter is refused.
    pub required: bool,
    /// The values to choose from; empty when any value may be given.
    pub choices: Vec<String>,
}

/// A tool that a model may call: its name, what it does, and its string
/// parameters.
#[derive(Debug)]
pub struct ToolDefinition {
    pub name: String,
    pub description: String,
    pub parameters: Vec<ToolParameter>,
}

/// The name of a parameter and whether it is required.
pub open spec fn parameter_view(p: ToolParameter) -> (Seq<char>, bool) {
    (p.name@, p.required)
}

/// The mathematical model of a [`ToolDefinition`]: its name, and the name
/// of each parameter with whether it is required.
pub struct ToolView {
    pub name: Seq<char>,
    pub parameters: Seq<(Seq<char>, bool)>,
}

impl View for ToolDefinition {
    type V = ToolView;

    open spec fn view(&self) -> ToolView {
        ToolView {
            name: self.name@,
            parameters: self.parameters@.map_values(|p: ToolParameter| parameter_view(p)),
        }
    }
}

/// The tools, in the order in which they are offered: the three queries,
/// then the six edits.
pub open spec fn tool_list() -> Seq<ToolView> {
    seq![
        ToolView { name: "get_node"@, parameters: seq![("id"@, true)] },
        ToolView { name: "list_nodes"@, parameters: seq![("parent"@, false)] },
        ToolView { name: "get_edges"@, parameters: seq![("node_id"@, true)] },
        ToolView {
            name: "create_node"@,
            parameters: seq![
                ("id"@, true),
                ("label"@, true),
                ("shape"@, false),
                ("color"@, false),
                ("parent"@, false),
            ],
        },
        ToolView {
            name: "update_node"@,
            parameters: seq![("id"@, true), ("label"@, false), ("shape"@, false), ("color"@, false)],
        },
        ToolView { name: "delete_node"@, parameters: seq![("id"@, true)] },
        ToolView {
            name: "create_edge"@,
            parameters: seq![("from"@, true), ("to"@, true), ("label"@, false), ("color"@, false)],
        },
        ToolView { name: "delete_edge"@, parameters: seq![("from"@, true), ("to"@, true)] },
        ToolView { name: "create_cluster"@, parameters: seq![("id"@, true), ("label"@, true)] },
    ]
}

/// A parameter without a list of choices.
fn parameter(name: &str, description: &str, required: bool) -> (r: ToolParameter)
    ensures
        parameter_view(r) == (name@, required),
{
    ToolParameter {
        name: String::from_str(name),
        description: String::from_str(description),
        required,
        choices: Vec::new(),
    }
}

/// A tool with the given parameters.
fn tool(name: &str, description: &str, parameters: Vec<ToolParameter>) -> (r: ToolDefinition)
    ensures
        r@ == (ToolView {
            name: name@,
            parameters: parameters@.map_values(|p: ToolParameter| parameter_view(p)),
        }),
{
    ToolDefinition {
        name: String::from_str(name),
        description: String::from_str(description),
        parameters,
    }
}

/// The models of a list of tools, in order.
pub open spec fn tool_views(v: Seq<ToolDefinition>) -> Seq<ToolView> {
    v.map_values(|t: ToolDefinition| t@)
}

/// The tools that a model may call, with their parameters.
pub fn get_tool_definitions() -> (r: Vec<ToolDefinition>)
    ensures
        tool_views(r@) == tool_list(),
{
    let mut tools: Vec<ToolDefinition> = Vec::new();

    let mut p: Vec<ToolParameter> = Vec::new();
    p.push(parameter("id", "The node ID to query", true));
    let t = tool("get_node", "Get details about a specific node in the graph", p);
    assert(t@.parameters =~= tool_list()[0].parameters);
    tools.push(t);

    let mut p: Vec<ToolParameter> = Vec::new();
    p.push(parameter("parent", "Optional: parent subgraph to filter by", false));
    let t = tool("list_nodes", "List all nodes in the graph or within a specific subgraph", p);
    assert(t@.parameters =~= tool_list()[1].parameters);
    tools.push(t);

    let mut p: Vec<ToolParameter> = Vec::new();
    p.push(parameter("node_id", "Node ID to get edges for", true));
    let t = tool("get_edges", "Get all edges connected to a node", p);
    assert(t@.parameters =~= tool_list()[2].parameters);
    tools.push(t);

    let mut p: Vec<ToolParameter> = Vec::new();
    p.push(parameter("id", "Unique identifier for the node", true));
    p.push(parameter("label", "Display label for the node", true));
    let mut shape = parameter("shape", "Node shape (box, circle, ellipse, etc)", false);
    shape.choices.push(String::from_str("box"));
    shape.choices.push(String::from_str("circle"));
    shape.choices.push(String::from_str("ellipse"));
    shape.choices.push(String::from_str("diamond"));
    shape.choices.push(String::from_str("cylinder"));
    p.push(shape);
    p.push(parameter("color", "Node color (hex or name)", false));
    p.push(parameter("parent", "Parent subgraph to place node in", false));
    let t = tool("create_node", "Create a new node in the graph", p);
    assert(t@.parameters =~= tool_list()[3].parameters);
    tools.push(t);

    let mut p: Vec<ToolParameter> = Vec::new();
    p.push(parameter("id", "Node ID to update", true));
    p.push(parameter("label", "New display label", false));
    p.push(parameter("shape", "New node shape", false));
    p.push(parameter("color", "New node color", false));
    let t = tool("update_node", "Update an existing node's properties", p);
    assert(t@.parameters =~= tool_list()[4].parameters);
    tools.push(t);

    let mut p: Vec<ToolParameter> = Vec::new();
    p.push(parameter("id", "Node ID to delete", true));
    let t = tool("delete_node", "Remove a node from the graph", p);
    assert(t@.parameters =~= tool_list()[5].parameters);
    tools.push(t);

    let mut p: Vec<ToolParameter> = Vec::new();
    p.push(parameter("from", "Source node ID", true));
    p.push(parameter("to", "Target node ID", true));
    p.push(parameter("label", "Edge label", false));
    p.push(parameter("color", "Edge color", false));
    let t = tool("create_edge", "Create an edge between two nodes", p);
    assert(t@.parameters =~= tool_list()[6].parameters);
    tools.push(t);

    let mut p: Vec<ToolParameter> = Vec::new();
    p.push(parameter("from", "Source node ID", true));
    p.push(parameter("to", "Target node ID", true));
    let t = tool("delete_edge", "Remove an edge between two nodes", p);
    assert(t@.parameters =~= tool_list()[7].parameters);
    tools.push(t);

    let mut p: Vec<ToolParameter> = Vec::new();
    p.push(parameter("id", "Cluster identifier (use cluster_ prefix)", true));
    p.push(parameter("label", "Cluster display label", true));
    let t = tool("create_cluster", "Create a new cluster/subgraph to group nodes", p);
    assert(t@.parameters =~= tool_list()[8].parameters);
    tools.push(t);

    tools
}

} // verus!
