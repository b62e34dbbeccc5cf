//! The failures that parsing and editing report.

use vstd::prelude::*;
use vstd::string::StringExecFns;

verus! {

/// Why a document could not be parsed or an edit could not be applied.
#[derive(Debug)]
pub enum Error {
    /// A node with this id is already there.
    NodeAlreadyExists(String),
    /// No node has this id.
    NodeNotFound(String),
    /// An edge between these two endpoints is already there.
    EdgeAlreadyExists(String, String),
    /// No edge joins these two endpoints.
    EdgeNotFound(String, String),
    /// The subgraph named as parent is not there.
    ParentSubgraphNotFound(String),
    /// A subgraph with this id is already there.
    SubgraphAlreadyExists(String),
    /// No subgraph has this id.
    SubgraphNotFound(String),
    /// No `id = value` statement has this name.
    AttributeNotFound(String),
    /// The tool call names no known tool.
    UnknownTool(String),
    /// The tool call lacks this parameter.
    MissingParameter(String),
    /// The text is not of the grammar; the diagnostic says what was
    /// expected and on which line.
    ParseError(String),
}

/// The mathematical model of an [`Error`].
pub enum ErrorView {
    NodeAlreadyExists(Seq<char>),
    NodeNotFound(Seq<char>),
    EdgeAlreadyExists(Seq<char>, Seq<char>),
    EdgeNotFound(Seq<char>, Seq<char>),
    ParentSubgraphNotFound(Seq<char>),
    SubgraphAlreadyExists(Seq<char>),
    SubgraphNotFound(Seq<char>),
    AttributeNotFound(Seq<char>),
    UnknownTool(Seq<char>),
    MissingParameter(Seq<char>),
    ParseError(Seq<char>),
}

impl View for Error {
    type V = ErrorView;

    open spec fn view(&self) -> ErrorView {
        match self {
            Error::NodeAlreadyExists(a) => ErrorView::NodeAlreadyExists(a@),
            Error::NodeNotFound(a) => ErrorView::NodeNotFound(a@),
            Error::EdgeAlreadyExists(a, b) => ErrorView::EdgeAlreadyExists(a@, b@),
            Error::EdgeNotFound(a, b) => ErrorView::EdgeNotFound(a@, b@),
            Error::ParentSubgraphNotFound(a) => ErrorView::ParentSubgraphNotFound(a@),
            Error::SubgraphAlreadyExists(a) => ErrorView::SubgraphAlreadyExists(a@),
            Error::SubgraphNotFound(a) => ErrorView::SubgraphNotFound(a@),
            Error::AttributeNotFound(a) => ErrorView::AttributeNotFound(a@),
            Error::UnknownTool(a) => ErrorView::UnknownTool(a@),
            Error::MissingParameter(a) => ErrorView::MissingParameter(a@),
            Error::ParseError(a) => ErrorView::ParseError(a@),
        }
    }
}

/// `prefix`, then `name` in single quotes, then `suffix`.
pub open spec fn quoted_message(prefix: Seq<char>, name: Seq<char>, suffix: Seq<char>) -> Seq<char> {
    prefix + seq!['\''] + name + seq!['\''] + suffix
}

/// The sentence that describes the edge from `from` to `to`, between
/// `prefix` and `suffix`.
pub open spec fn edge_message(
    prefix: Seq<char>,
    from: Seq<char>,
    to: Seq<char>,
    suffix: Seq<char>,
) -> Seq<char> {
    prefix + seq!['\''] + from + "' -> '"@ + to + seq!['\''] + suffix
}

/// The text of an error, as a person reads it.
pub open spec fn message_of(e: ErrorView) -> Seq<char> {
    match e {
        ErrorView::NodeAlreadyExists(a) => quoted_message("Node "@, a, " already exists"@),
        ErrorView::NodeNotFound(a) => quoted_message("Node "@, a, " not found"@),
        ErrorView::EdgeAlreadyExists(a, b) => edge_message("Edge "@, a, b, " already exists"@),
        ErrorView::EdgeNotFound(a, b) => edge_message("Edge "@, a, b, " not found"@),
        ErrorView::ParentSubgraphNotFound(a) => quoted_message(
            "Parent subgraph "@,
            a,
            " not found"@,
        ),
        ErrorView::SubgraphAlreadyExists(a) => quoted_message("Subgraph "@, a, " already exists"@),
        ErrorView::SubgraphNotFound(a) => quoted_message("Subgraph "@, a, " not found"@),
        ErrorView::AttributeNotFound(a) => quoted_message("Attribute "@, a, " not found"@),
        ErrorView::UnknownTool(a) => "Unknown tool: "@ + a,
        ErrorView::MissingParameter(a) => quoted_message("Missing "@, a, " parameter"@),
        ErrorView::ParseError(a) => "Parse error: "@ + a,
    }
}

/// Computes [`quoted_message`].
fn quoted(prefix: &str, name: &str, suffix: &str) -> (r: String)
    ensures
        r@ == quoted_message(prefix@, name@, suffix@),
{
    let mut r = String::from_str(prefix);
    r.push('\'');
    r.append(name);
    r.push('\'');
    r.append(suffix);
    r
}

/// Computes [`edge_message`].
fn edge_text(prefix: &str, from: &str, to: &str, suffix: &str) -> (r: String)
    ensures
        r@ == edge_message(prefix@, from@, to@, suffix@),
{
    let mut r = String::from_str(prefix);
    r.push('\'');
    r.append(from);
    r.append("' -> '");
    r.append(to);
    r.push('\'');
    r.append(suffix);
    r
}

impl Error {
    /// The text of the error, as a person reads it.
    pub fn message(&self) -> (r: String)
        ensures
            r@ == message_of(self@),
    {
        match self {
            Error::NodeAlreadyExists(a) => quoted("Node ", a.as_str(), " already exists"),
            Error::NodeNotFound(a) => quoted("Node ", a.as_str(), " not found"),
            Error::EdgeAlreadyExists(a, b) => edge_text(
                "Edge ",
                a.as_str(),
                b.as_str(),
                " already exists",
            ),
            Error::EdgeNotFound(a, b) => edge_text("Edge ", a.as_str(), b.as_str(), " not found"),
            Error::ParentSubgraphNotFound(a) => quoted(
                "Parent subgraph ",
                a.as_str(),
                " not found",
            ),
            Error::SubgraphAlreadyExists(a) => quoted("Subgraph ", a.as_str(), " already exists"),
            Error::SubgraphNotFound(a) => quoted("Subgraph ", a.as_str(), " not found"),
            Error::AttributeNotFound(a) => quoted("Attribute ", a.as_str(), " not found"),
            Error::UnknownTool(a) => {
                let mut r = String::from_str("Unknown tool: ");
                r.append(a.as_str());
                r
            },
            Error::MissingParameter(a) => quoted("Missing ", a.as_str(), " parameter"),
            Error::ParseError(a) => {
                let mut r = String::from_str("Parse error: ");
                r.append(a.as_str());
                r
            },
        }
    }
}

} // verus!
