//! The commands of the edit language.

use vstd::prelude::*;
use crate::attrs::{AttrSeq, Attrs};
use crate::text::texts;

verus! {

/// One command of the edit language.
#[derive(Debug)]
pub enum DslCommand {
    Node(NodeCmd),
    Edge(EdgeCmd),
    Cluster(ClusterCmd),
    Global(GlobalCmd),
    Rank(RankCmd),
}

/// A command on a node.
#[allow(inconsistent_fields)]
#[derive(Debug)]
pub enum NodeCmd {
    /// Sets a node: creates it, or merges into it when it is there.
    Add { id: String, attrs: Attrs },
    /// Merges into a node that is there; the reserved attribute `id`
    /// renames it first, together with every reference to it. A node that
    /// is not there is not created.
    Update { id: String, attrs: Attrs },
    /// Removes a node and the edges that start or end at it.
    Delete { id: String },
}

/// A command on an edge.
#[allow(inconsistent_fields)]
#[derive(Debug)]
pub enum EdgeCmd {
    /// Sets an edge: creates it, or merges into it when it is there.
    Add { from: String, to: String, attrs: Attrs },
    /// Merges into an edge that is there, and changes nothing otherwise.
    Update { from: String, to: String, attrs: Attrs },
    /// Removes an edge.
    Delete { from: String, to: String },
}

/// A command on a cluster, a subgraph whose id starts with `cluster_`.
#[allow(inconsistent_fields)]
#[derive(Debug)]
pub enum ClusterCmd {
    /// Sets a cluster: creates it, or merges into it when it is there.
    Add { id: String, attrs: Attrs },
    /// Merges into a cluster that is there, and changes nothing otherwise.
    Update { id: String, attrs: Attrs },
    /// Removes the cluster's own chunk; what it held stays.
    Delete { id: String },
    /// Moves a node into a cluster. A flat chunk list cannot express this:
    /// the command changes nothing.
    Move { node: String, cluster: String },
}

/// A command on the graph's own attributes or on the defaults.
#[derive(Debug)]
pub enum GlobalCmd {
    /// Sets attributes of the graph itself.
    Graph(Attrs),
    /// Sets the defaults of nodes.
    NodeDefaults(Attrs),
    /// Sets the defaults of edges.
    EdgeDefaults(Attrs),
}

/// A rank group over the named nodes.
#[derive(Debug)]
pub enum RankCmd {
    Same(Vec<String>),
    Min(Vec<String>),
    Max(Vec<String>),
}

/// The mathematical model of a [`NodeCmd`].
#[allow(inconsistent_fields)]
pub enum NodeCmdView {
    Add { id: Seq<char>, attrs: AttrSeq },
    Update { id: Seq<char>, attrs: AttrSeq },
    Delete { id: Seq<char> },
}

/// The mathematical model of an [`EdgeCmd`].
#[allow(inconsistent_fields)]
pub enum EdgeCmdView {
    Add { from: Seq<char>, to: Seq<char>, attrs: AttrSeq },
    Update { from: Seq<char>, to: Seq<char>, attrs: AttrSeq },
    Delete { from: Seq<char>, to: Seq<char> },
}

/// The mathematical model of a [`ClusterCmd`].
#[allow(inconsistent_fields)]
pub enum ClusterCmdView {
    Add { id: Seq<char>, attrs: AttrSeq },
    Update { id: Seq<char>, attrs: AttrSeq },
    Delete { id: Seq<char> },
    Move { node: Seq<char>, cluster: Seq<char> },
}

/// The mathematical model of a [`GlobalCmd`].
pub enum GlobalCmdView {
    Graph(AttrSeq),
    NodeDefaults(AttrSeq),
    EdgeDefaults(AttrSeq),
}

/// The mathematical model of a [`RankCmd`].
pub enum RankCmdView {
    Same(Seq<Seq<char>>),
    Min(Seq<Seq<char>>),
    Max(Seq<Seq<char>>),
}

/// The mathematical model of a [`DslCommand`].
pub enum DslCommandView {
    Node(NodeCmdView),
    Edge(EdgeCmdView),
    Cluster(ClusterCmdView),
    Global(GlobalCmdView),
    Rank(RankCmdView),
}

impl View for NodeCmd {
    type V = NodeCmdView;

    open spec fn view(&self) -> NodeCmdView {
        match self {
            NodeCmd::Add { id, attrs } => NodeCmdView::Add { id: id@, attrs: attrs@ },
            NodeCmd::Update { id, attrs } => NodeCmdView::Update { id: id@, attrs: attrs@ },
            NodeCmd::Delete { id } => NodeCmdView::Delete { id: id@ },
        }
    }
}

impl View for EdgeCmd {
    type V = EdgeCmdView;

    open spec fn view(&self) -> EdgeCmdView {
        match self {
            EdgeCmd::Add { from, to, attrs } => EdgeCmdView::Add {
                from: from@,
                to: to@,
                attrs: attrs@,
            },
            EdgeCmd::Update { from, to, attrs } => EdgeCmdView::Update {
                from: from@,
                to: to@,
                attrs: attrs@,
            },
            EdgeCmd::Delete { from, to } => EdgeCmdView::Delete { from: from@, to: to@ },
        }
    }
}

impl View for ClusterCmd {
    type V = ClusterCmdView;

    open spec fn view(&self) -> ClusterCmdView {
        match self {
            ClusterCmd::Add { id, attrs } => ClusterCmdView::Add { id: id@, attrs: attrs@ },
            ClusterCmd::Update { id, attrs } => ClusterCmdView::Update { id: id@, attrs: attrs@ },
            ClusterCmd::Delete { id } => ClusterCmdView::Delete { id: id@ },
            ClusterCmd::Move { node, cluster } => ClusterCmdView::Move {
                node: node@,
                cluster: cluster@,
            },
        }
    }
}

impl View for GlobalCmd {
    type V = GlobalCmdView;

    open spec fn view(&self) -> GlobalCmdView {
        match self {
            GlobalCmd::Graph(a) => GlobalCmdView::Graph(a@),
            GlobalCmd::NodeDefaults(a) => GlobalCmdView::NodeDefaults(a@),
            GlobalCmd::EdgeDefaults(a) => GlobalCmdView::EdgeDefaults(a@),
        }
    }
}

impl View for RankCmd {
    type V = RankCmdView;

    open spec fn view(&self) -> RankCmdView {
        match self {
            RankCmd::Same(v) => RankCmdView::Same(texts(v@)),
            RankCmd::Min(v) => RankCmdView::Min(texts(v@)),
            RankCmd::Max(v) => RankCmdView::Max(texts(v@)),
        }
    }
}

impl View for DslCommand {
    type V = DslCommandView;

    open spec fn view(&self) -> DslCommandView {
        match self {
            DslCommand::Node(c) => DslCommandView::Node(c@),
            DslCommand::Edge(c) => DslCommandView::Edge(c@),
            DslCommand::Cluster(c) => DslCommandView::Cluster(c@),
            DslCommand::Global(c) => DslCommandView::Global(c@),
            DslCommand::Rank(c) => DslCommandView::Rank(c@),
        }
    }
}

/// The models of a list of commands, in order.
pub open spec fn command_views(v: Seq<DslCommand>) -> Seq<DslCommandView> {
    v.map_values(|c: DslCommand| c@)
}

} // verus!
