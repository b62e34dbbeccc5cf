use graph_delta::chunk::Chunk;
use graph_delta::dsl::ast::{ClusterCmd, DslCommand, EdgeCmd, GlobalCmd, NodeCmd, RankCmd};
use graph_delta::dsl::interpreter::{apply_commands, rename_in_list};
use graph_delta::dsl::parser::{parse_dsl, DslParser};
use graph_delta::error::Error;
use graph_delta::parser::{parse_attribute_string, parse_dot_to_chunks};
use graph_delta::serializer::chunks_to_complete_dot;

#[test]
fn node_line_with_label() {
    let cmds = parse_dsl("node: X, \"My Node\"").unwrap();
    assert_eq!(cmds.len(), 1);
    match &cmds[0] {
        DslCommand::Node(NodeCmd::Add { id, attrs }) => {
            assert_eq!(id, "X");
            assert_eq!(attrs.len(), 1);
            assert_eq!(attrs.get("label"), Some(&"My Node".to_string()));
        }
        other => panic!("unexpected command {:?}", other),
    }
}

#[test]
fn every_keyword_is_read() {
    let text = "# a comment\n\nnode: A\nupdate_node: A, label=\"New A\", color = red\n  delete_node: \"B C\"   // gone\nedge: A, B, color=red\nupdate_edge: A, B {style: dashed, label: \"x y\"}\ndelete_edge: A, B\nsubgraph: zone, label=\"Zone\"\nupdate_subgraph: cluster_zone {color: blue}\nmove: A, zone\ndelete_subgraph: zone\ngraph: rankdir=LR\nnode_defaults: shape=box\nedge_defaults: {color: gray}\nrank_same: A, B, C\nrank_min: A\nrank_max: \"B C\", D\n";
    let cmds = parse_dsl(text).unwrap();
    assert_eq!(cmds.len(), 16);
    assert!(matches!(&cmds[0], DslCommand::Node(NodeCmd::Add { id, attrs }) if id == "A" && attrs.is_empty()));
    match &cmds[1] {
        DslCommand::Node(NodeCmd::Update { id, attrs }) => {
            assert_eq!(id, "A");
            assert_eq!(attrs.get("label"), Some(&"New A".to_string()));
            assert_eq!(attrs.get("color"), Some(&"red".to_string()));
        }
        other => panic!("unexpected command {:?}", other),
    }
    assert!(matches!(&cmds[2], DslCommand::Node(NodeCmd::Delete { id }) if id == "\"B C\""));
    assert!(matches!(&cmds[3], DslCommand::Edge(EdgeCmd::Add { from, to, attrs })
        if from == "A" && to == "B" && attrs.get("color") == Some(&"red".to_string())));
    match &cmds[4] {
        DslCommand::Edge(EdgeCmd::Update { from, to, attrs }) => {
            assert_eq!((from.as_str(), to.as_str()), ("A", "B"));
            assert_eq!(attrs.get("style"), Some(&"dashed".to_string()));
            assert_eq!(attrs.get("label"), Some(&"x y".to_string()));
        }
        other => panic!("unexpected command {:?}", other),
    }
    assert!(matches!(&cmds[5], DslCommand::Edge(EdgeCmd::Delete { from, to }) if from == "A" && to == "B"));
    assert!(matches!(&cmds[6], DslCommand::Cluster(ClusterCmd::Add { id, attrs })
        if id == "zone" && attrs.get("label") == Some(&"Zone".to_string())));
    assert!(matches!(&cmds[7], DslCommand::Cluster(ClusterCmd::Update { id, attrs })
        if id == "cluster_zone" && attrs.get("color") == Some(&"blue".to_string())));
    assert!(matches!(&cmds[8], DslCommand::Cluster(ClusterCmd::Move { node, cluster })
        if node == "A" && cluster == "zone"));
    assert!(matches!(&cmds[9], DslCommand::Cluster(ClusterCmd::Delete { id }) if id == "zone"));
    assert!(matches!(&cmds[10], DslCommand::Global(GlobalCmd::Graph(a)) if a.get("rankdir") == Some(&"LR".to_string())));
    assert!(matches!(&cmds[11], DslCommand::Global(GlobalCmd::NodeDefaults(a)) if a.get("shape") == Some(&"box".to_string())));
    assert!(matches!(&cmds[12], DslCommand::Global(GlobalCmd::EdgeDefaults(a)) if a.get("color") == Some(&"gray".to_string())));
    assert!(matches!(&cmds[13], DslCommand::Rank(RankCmd::Same(n)) if n == &vec!["A".to_string(), "B".to_string(), "C".to_string()]));
    assert!(matches!(&cmds[14], DslCommand::Rank(RankCmd::Min(n)) if n == &vec!["A".to_string()]));
    assert!(matches!(&cmds[15], DslCommand::Rank(RankCmd::Max(n)) if n == &vec!["\"B C\"".to_string(), "D".to_string()]));
}

#[test]
fn malformed_lines_abort_the_parse() {
    for bad in [
        "node",
        "node:",
        "nod: A",
        "node: A, B",
        "edge: A",
        "edge: A B",
        "update_node: A {color: red",
        "rank_same:",
        "node: A\nwhat is this\nnode: B",
        "node: A extra",
        "node: \"open",
        "node: A, color=",
    ] {
        let r = parse_dsl(bad);
        assert!(matches!(r, Err(Error::ParseError(_))), "accepted: {:?}", bad);
    }
    let e = parse_dsl("node: A\nnode: B\nbogus: C\n").unwrap_err();
    assert_eq!(e.message(), "Parse error: line 3: expected a command keyword");
    assert_eq!(parse_dsl("").unwrap().len(), 0);
    assert_eq!(parse_dsl("\n\n  \n# only comments\n").unwrap().len(), 0);
    assert_eq!(DslParser::new("node: A\r\nnode: B").commands().unwrap().len(), 2);
}

fn graph() -> Vec<Chunk> {
    parse_dot_to_chunks("digraph G {\n  X [label=x];\n  A;\n  X -> A;\n  A -> X [w=1];\n  A -> A;\n}\n").unwrap()
}

#[test]
fn rename_cascades_into_edges_and_ranks() {
    let mut chunks = graph();
    apply_commands(&mut chunks, parse_dsl("rank_same: X, A, XX\nrank_min: A").unwrap());
    apply_commands(&mut chunks, parse_dsl("update_node: X {id: Y}").unwrap());
    assert_eq!(chunks[0].kind, "node");
    assert_eq!(chunks[0].id.as_deref(), Some("Y"));
    assert_eq!(chunks[0].attrs.get("label"), Some(&"x".to_string()));
    assert!(!chunks[0].attrs.contains_key("id"));
    assert_eq!(chunks[1].id.as_deref(), Some("A"));
    let edges: Vec<(&str, &str)> = chunks
        .iter()
        .filter(|c| c.kind == "edge")
        .map(|c| (c.id.as_deref().unwrap(), c.extra.as_deref().unwrap()))
        .collect();
    assert_eq!(edges, vec![("Y", "A"), ("A", "Y"), ("A", "A")]);
    assert!(!chunks.iter().any(|c| c.kind == "edge"
        && (c.id.as_deref() == Some("X") || c.extra.as_deref() == Some("X"))));
    let ranks: Vec<&str> = chunks
        .iter()
        .filter(|c| c.kind == "rank")
        .map(|c| c.attrs.get("nodes").unwrap().as_str())
        .collect();
    assert_eq!(ranks, vec!["Y,A,XX", "A"]);
    assert_eq!(chunks.len(), 7);
}

#[test]
fn rename_with_more_attributes() {
    let mut chunks = graph();
    apply_commands(&mut chunks, parse_dsl("update_node: X, id=Y, color=red").unwrap());
    assert_eq!(chunks[0].id.as_deref(), Some("Y"));
    assert_eq!(chunks[0].attrs.get("color"), Some(&"red".to_string()));
    assert_eq!(chunks[0].attrs.get("label"), Some(&"x".to_string()));
    assert_eq!(chunks[0].attrs.len(), 2);
}

#[test]
fn renaming_in_a_list() {
    assert_eq!(rename_in_list("A,B,A", "A", "Z"), "Z,B,Z");
    assert_eq!(rename_in_list("AA,B", "A", "Z"), "AA,B");
    assert_eq!(rename_in_list("", "A", "Z"), "");
    assert_eq!(rename_in_list("", "", "Z"), "Z");
    assert_eq!(rename_in_list("A,", "", "Z"), "A,Z");
    assert_eq!(rename_in_list("A", "A", ""), "");
}

#[test]
fn set_commands_create_or_update() {
    let mut chunks = graph();
    let n = chunks.len();
    apply_commands(&mut chunks, parse_dsl("node: X, color=red\nnode: N, \"New\"").unwrap());
    assert_eq!(chunks.len(), n + 1);
    assert_eq!(chunks[0].attrs.get("color"), Some(&"red".to_string()));
    assert_eq!(chunks[0].attrs.get("label"), Some(&"x".to_string()));
    assert_eq!(chunks[n].id.as_deref(), Some("N"));
    assert_eq!(chunks[n].range, (0, 0));
    assert_eq!(chunks[n].attrs.get("label"), Some(&"New".to_string()));

    apply_commands(&mut chunks, parse_dsl("edge: X, A, w=2\nedge: N, M").unwrap());
    assert_eq!(chunks.len(), n + 2);
    assert_eq!(chunks[2].attrs.get("w"), Some(&"2".to_string()));
    assert_eq!(chunks[n + 1].kind, "edge");
    assert_eq!(chunks[n + 1].id.as_deref(), Some("N"));
    assert_eq!(chunks[n + 1].extra.as_deref(), Some("M"));
}

fn summary(chunks: &[Chunk]) -> Vec<(String, Option<String>, Option<String>, Vec<(String, String)>)> {
    chunks
        .iter()
        .map(|c| {
            let attrs = (0..c.attrs.len())
                .map(|i| (c.attrs.key_at(i).clone(), c.attrs.value_at(i).clone()))
                .collect();
            (c.kind.clone(), c.id.clone(), c.extra.clone(), attrs)
        })
        .collect()
}

#[test]
fn updates_create_nothing() {
    let mut chunks = graph();
    let before = summary(&chunks);
    apply_commands(
        &mut chunks,
        parse_dsl("update_node: M, shape=box\nupdate_edge: N, M, w=3\nupdate_edge: A, M\nupdate_subgraph: zone, color=blue").unwrap(),
    );
    assert_eq!(summary(&chunks), before);

    apply_commands(&mut chunks, parse_dsl("update_node: A, shape=box\nupdate_edge: A, X, w=3, k=v").unwrap());
    assert_eq!(chunks.len(), before.len());
    assert_eq!(chunks[1].attrs.get("shape"), Some(&"box".to_string()));
    assert_eq!(chunks[3].attrs.get("w"), Some(&"3".to_string()));
    assert_eq!(chunks[3].attrs.get("k"), Some(&"v".to_string()));
    assert_eq!(chunks[3].attrs.len(), 2);
}

#[test]
fn renaming_a_node_that_only_a_rank_names() {
    let mut chunks: Vec<Chunk> = Vec::new();
    apply_commands(&mut chunks, parse_dsl("rank_same: A, X, XX").unwrap());
    assert_eq!(chunks.len(), 1);
    apply_commands(&mut chunks, parse_dsl("update_node: X {id: Y}").unwrap());
    assert_eq!(chunks.len(), 1);
    assert_eq!(chunks[0].kind, "rank");
    assert_eq!(chunks[0].id.as_deref(), Some("same"));
    assert_eq!(chunks[0].attrs.get("nodes"), Some(&"A,Y,XX".to_string()));
    assert!(!chunks.iter().any(|c| c.kind == "node"));

    apply_commands(&mut chunks, parse_dsl("update_node: Y, id=Z, color=red").unwrap());
    assert_eq!(chunks.len(), 1);
    assert_eq!(chunks[0].attrs.get("nodes"), Some(&"A,Z,XX".to_string()));
    assert_eq!(chunks[0].attrs.len(), 1);
}

#[test]
fn renaming_onto_a_node_that_is_there() {
    let mut chunks = parse_dot_to_chunks("digraph { A -> X; Y [shape=box]; }").unwrap();
    apply_commands(&mut chunks, parse_dsl("update_node: X, id=Y, color=red").unwrap());
    assert_eq!(chunks.len(), 2);
    assert_eq!(chunks[0].extra.as_deref(), Some("Y"));
    assert_eq!(chunks[1].attrs.get("color"), Some(&"red".to_string()));
    assert_eq!(chunks[1].attrs.get("shape"), Some(&"box".to_string()));
}

#[test]
fn deleting_a_node_takes_its_edges_along() {
    let mut chunks = graph();
    apply_commands(&mut chunks, parse_dsl("delete_node: X").unwrap());
    assert_eq!(chunks.len(), 2);
    assert_eq!(chunks[0].id.as_deref(), Some("A"));
    assert_eq!(chunks[1].kind, "edge");
    assert_eq!(chunks[1].extra.as_deref(), Some("A"));
    apply_commands(&mut chunks, parse_dsl("delete_edge: A, A\ndelete_edge: A, A").unwrap());
    assert_eq!(chunks.len(), 1);
}

#[test]
fn clusters_take_the_prefix() {
    let mut chunks: Vec<Chunk> = Vec::new();
    apply_commands(&mut chunks, parse_dsl("subgraph: zone, label=\"Zone\"\nsubgraph: cluster_b\nupdate_subgraph: zone, color=blue\nmove: A, zone").unwrap());
    assert_eq!(chunks.len(), 2);
    assert_eq!(chunks[0].kind, "subgraph");
    assert_eq!(chunks[0].id.as_deref(), Some("cluster_zone"));
    assert_eq!(chunks[0].attrs.get("label"), Some(&"Zone".to_string()));
    assert_eq!(chunks[0].attrs.get("color"), Some(&"blue".to_string()));
    assert_eq!(chunks[1].id.as_deref(), Some("cluster_b"));
    apply_commands(&mut chunks, vec![DslCommand::Cluster(ClusterCmd::Delete { id: "b".to_string() })]);
    assert_eq!(chunks.len(), 1);
}

#[test]
fn globals_and_ranks() {
    let mut chunks: Vec<Chunk> = Vec::new();
    apply_commands(
        &mut chunks,
        parse_dsl("graph: rankdir=LR\nnode_defaults: shape=box\nedge_defaults: color=gray\ngraph: bgcolor=white\nrank_max: A, B").unwrap(),
    );
    assert_eq!(chunks.len(), 4);
    assert_eq!(chunks[0].id.as_deref(), Some("graph"));
    assert_eq!(chunks[0].attrs.len(), 2);
    assert_eq!(chunks[1].id.as_deref(), Some("node"));
    assert_eq!(chunks[2].id.as_deref(), Some("edge"));
    assert_eq!(chunks[3].kind, "rank");
    assert_eq!(chunks[3].id.as_deref(), Some("max"));
    assert_eq!(chunks[3].attrs.get("nodes"), Some(&"A,B".to_string()));
    let out = chunks_to_complete_dot(&chunks, None);
    assert_eq!(
        out,
        "digraph G {\n    graph [bgcolor=white, rankdir=LR];\n    node [shape=box];\n    edge [color=gray];\n    { rank=max; \"A\"; \"B\" }\n}\n"
    );
    let direct = vec![DslCommand::Global(GlobalCmd::Graph(parse_attribute_string("a=1")))];
    apply_commands(&mut chunks, direct);
    assert_eq!(chunks[0].attrs.len(), 3);
}
