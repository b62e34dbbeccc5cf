use graph_delta::chunk::Chunk;
use graph_delta::commands::{apply_command, DotCommand};
use graph_delta::error::Error;
use graph_delta::parser::parse_attribute_string;

fn create_test_chunks() -> Vec<Chunk> {
    vec![
        Chunk {
            kind: "node".to_string(),
            id: Some("A".to_string()),
            attrs: parse_attribute_string(r#"label="Node A""#),
            range: (1, 1),
            extra: None,
        },
        Chunk {
            kind: "node".to_string(),
            id: Some("B".to_string()),
            attrs: parse_attribute_string(r#"label="Node B""#),
            range: (2, 2),
            extra: None,
        },
        Chunk {
            kind: "edge".to_string(),
            id: Some("A".to_string()),
            attrs: parse_attribute_string(r#"label="A to B""#),
            range: (3, 3),
            extra: Some("B".to_string()),
        },
    ]
}

#[test]
fn test_create_node() {
    let mut chunks = create_test_chunks();
    let cmd = DotCommand::CreateNode {
        id: "C".to_string(),
        attrs: Some(r#"label="Node C",shape=box"#.to_string()),
        parent: None,
    };

    apply_command(&mut chunks, &cmd).unwrap();
    assert_eq!(chunks.len(), 4);
    let node_c = chunks.iter().find(|c| c.id.as_deref() == Some("C")).unwrap();
    assert_eq!(node_c.attrs.get("label"), Some(&"Node C".to_string()));
    assert_eq!(node_c.attrs.get("shape"), Some(&"box".to_string()));
}

#[test]
fn test_update_node() {
    let mut chunks = create_test_chunks();
    let cmd = DotCommand::UpdateNode {
        id: "A".to_string(),
        attrs: Some(r#"label="Updated A",color=red"#.to_string()),
    };

    apply_command(&mut chunks, &cmd).unwrap();
    let node = chunks.iter().find(|c| c.id.as_deref() == Some("A")).unwrap();
    assert_eq!(node.attrs.get("label"), Some(&"Updated A".to_string()));
    assert_eq!(node.attrs.get("color"), Some(&"red".to_string()));
}

#[test]
fn test_delete_node() {
    let mut chunks = create_test_chunks();
    let cmd = DotCommand::DeleteNode { id: "A".to_string() };
    apply_command(&mut chunks, &cmd).unwrap();
    assert_eq!(chunks.len(), 2);
    assert!(!chunks.iter().any(|c| c.kind == "node" && c.id.as_deref() == Some("A")));
    // the edge that starts at A stays: deleting a node does not cascade
    assert!(chunks.iter().any(|c| c.kind == "edge" && c.id.as_deref() == Some("A")));
}

#[test]
fn test_create_edge() {
    let mut chunks = create_test_chunks();
    let cmd = DotCommand::CreateEdge {
        from: "B".to_string(),
        to: "A".to_string(),
        attrs: Some(r#"label="B to A",style=dashed"#.to_string()),
        parent: None,
    };

    apply_command(&mut chunks, &cmd).unwrap();
    assert_eq!(chunks.len(), 4);
    let edge = chunks.iter().find(|c| c.kind == "edge" && c.id.as_deref() == Some("B")).unwrap();
    assert_eq!(edge.attrs.get("label"), Some(&"B to A".to_string()));
    assert_eq!(edge.attrs.get("style"), Some(&"dashed".to_string()));
}

#[test]
fn test_update_edge() {
    let mut chunks = create_test_chunks();
    let cmd = DotCommand::UpdateEdge {
        from: "A".to_string(),
        to: "B".to_string(),
        attrs: Some(r#"label="Updated edge",color=blue"#.to_string()),
    };

    apply_command(&mut chunks, &cmd).unwrap();
    let edge = chunks.iter().find(|c| c.kind == "edge" && c.id.as_deref() == Some("A")).unwrap();
    assert_eq!(edge.attrs.get("label"), Some(&"Updated edge".to_string()));
    assert_eq!(edge.attrs.get("color"), Some(&"blue".to_string()));
}

#[test]
fn test_delete_edge() {
    let mut chunks = create_test_chunks();
    let cmd = DotCommand::DeleteEdge { from: "A".to_string(), to: "B".to_string() };
    apply_command(&mut chunks, &cmd).unwrap();
    assert_eq!(chunks.len(), 2);
    assert!(!chunks.iter().any(|c| c.kind == "edge"));
}

#[test]
fn create_node_twice_is_refused() {
    let mut chunks = create_test_chunks();
    let cmd = DotCommand::CreateNode { id: "A".to_string(), attrs: None, parent: None };
    let r = apply_command(&mut chunks, &cmd);
    assert!(matches!(r, Err(Error::NodeAlreadyExists(ref id)) if id == "A"));
    assert_eq!(r.unwrap_err().message(), "Node 'A' already exists");
    assert_eq!(chunks.len(), 3);
}

#[test]
fn create_then_delete_node_restores_the_list() {
    let mut chunks = create_test_chunks();
    let create = DotCommand::CreateNode {
        id: "C".to_string(),
        attrs: Some("color=red".to_string()),
        parent: None,
    };
    apply_command(&mut chunks, &create).unwrap();
    assert_eq!(chunks.len(), 4);
    // after the last top-level node, one line past it
    assert_eq!(chunks[2].id.as_deref(), Some("C"));
    assert_eq!(chunks[2].range, (3, 3));
    apply_command(&mut chunks, &DotCommand::DeleteNode { id: "C".to_string() }).unwrap();
    assert_eq!(chunks.len(), 3);
    assert!(!chunks.iter().any(|c| c.id.as_deref() == Some("C")));
    assert_eq!(chunks[0].id.as_deref(), Some("A"));
    assert_eq!(chunks[1].id.as_deref(), Some("B"));
    assert_eq!(chunks[2].kind, "edge");
}

#[test]
fn update_node_merges_right_biased() {
    let mut chunks = vec![Chunk {
        kind: "node".to_string(),
        id: Some("N".to_string()),
        attrs: parse_attribute_string("a=1, b=2"),
        range: (1, 1),
        extra: None,
    }];
    let cmd = DotCommand::UpdateNode { id: "N".to_string(), attrs: Some("b=3, c=4".to_string()) };
    apply_command(&mut chunks, &cmd).unwrap();
    let attrs = &chunks[0].attrs;
    assert_eq!(attrs.len(), 3);
    assert_eq!(attrs.get("a"), Some(&"1".to_string()));
    assert_eq!(attrs.get("b"), Some(&"3".to_string()));
    assert_eq!(attrs.get("c"), Some(&"4".to_string()));
    assert_eq!(attrs.key_at(0), "a");
    assert_eq!(attrs.key_at(1), "b");
    assert_eq!(attrs.key_at(2), "c");
}

#[test]
fn update_missing_node_is_refused() {
    let mut chunks = create_test_chunks();
    let cmd = DotCommand::UpdateNode { id: "Z".to_string(), attrs: None };
    let r = apply_command(&mut chunks, &cmd);
    assert!(matches!(r, Err(Error::NodeNotFound(ref id)) if id == "Z"));
    assert_eq!(r.unwrap_err().message(), "Node 'Z' not found");
}

#[test]
fn create_edge_twice_fails_and_update_edge_upserts() {
    let mut chunks = create_test_chunks();
    let create = DotCommand::CreateEdge {
        from: "B".to_string(),
        to: "A".to_string(),
        attrs: None,
        parent: None,
    };
    apply_command(&mut chunks, &create).unwrap();
    let r = apply_command(&mut chunks, &create);
    assert!(matches!(r, Err(Error::EdgeAlreadyExists(ref a, ref b)) if a == "B" && b == "A"));
    assert_eq!(r.unwrap_err().message(), "Edge 'B' -> 'A' already exists");
    assert_eq!(chunks.len(), 4);

    let upsert = DotCommand::UpdateEdge {
        from: "X".to_string(),
        to: "Y".to_string(),
        attrs: Some("color=red".to_string()),
    };
    apply_command(&mut chunks, &upsert).unwrap();
    assert_eq!(chunks.len(), 5);
    let last = &chunks[4];
    assert_eq!(last.kind, "edge");
    assert_eq!(last.id.as_deref(), Some("X"));
    assert_eq!(last.extra.as_deref(), Some("Y"));
    assert_eq!(last.attrs.get("color"), Some(&"red".to_string()));
    assert_eq!(last.range, (5, 5));
}

#[test]
fn delete_missing_edge_is_refused() {
    let mut chunks = create_test_chunks();
    let cmd = DotCommand::DeleteEdge { from: "B".to_string(), to: "A".to_string() };
    let r = apply_command(&mut chunks, &cmd);
    assert!(matches!(r, Err(Error::EdgeNotFound(ref a, ref b)) if a == "B" && b == "A"));
    assert_eq!(r.unwrap_err().message(), "Edge 'B' -> 'A' not found");
}

fn chunk(kind: &str, id: Option<&str>, range: (usize, usize)) -> Chunk {
    Chunk {
        kind: kind.to_string(),
        id: id.map(|s| s.to_string()),
        attrs: parse_attribute_string(""),
        range,
        extra: None,
    }
}

#[test]
fn delete_subgraph_removes_what_lies_within() {
    let mut chunks = vec![
        chunk("node", Some("A"), (2, 2)),
        chunk("subgraph", Some("cluster_X"), (3, 7)),
        chunk("node", Some("B"), (4, 4)),
        chunk("subgraph", Some("cluster_Y"), (5, 6)),
        chunk("node", Some("C"), (6, 6)),
        chunk("node", Some("D"), (8, 8)),
        chunk("node", Some("E"), (7, 9)),
    ];
    let cmd = DotCommand::DeleteSubgraph { id: "cluster_X".to_string() };
    apply_command(&mut chunks, &cmd).unwrap();
    let ids: Vec<&str> = chunks.iter().map(|c| c.id.as_deref().unwrap()).collect();
    assert_eq!(ids, vec!["A", "D", "E"]);

    let r = apply_command(&mut chunks, &cmd);
    assert!(matches!(r, Err(Error::SubgraphNotFound(ref id)) if id == "cluster_X"));
    assert_eq!(r.unwrap_err().message(), "Subgraph 'cluster_X' not found");
}

#[test]
fn create_node_in_parent_goes_after_the_last_child() {
    let mut chunks = vec![
        chunk("node", Some("A"), (2, 2)),
        chunk("subgraph", Some("cluster_X"), (3, 9)),
        chunk("node", Some("B"), (4, 6)),
        chunk("node", Some("C"), (5, 5)),
        chunk("node", Some("D"), (12, 12)),
    ];
    let cmd = DotCommand::CreateNode {
        id: "N".to_string(),
        attrs: None,
        parent: Some("cluster_X".to_string()),
    };
    apply_command(&mut chunks, &cmd).unwrap();
    // B ends on the greatest line inside the parent
    assert_eq!(chunks[3].id.as_deref(), Some("N"));
    assert_eq!(chunks[3].range, (7, 7));

    let missing = DotCommand::CreateNode {
        id: "M".to_string(),
        attrs: None,
        parent: Some("nowhere".to_string()),
    };
    let r = apply_command(&mut chunks, &missing);
    assert!(matches!(r, Err(Error::ParentSubgraphNotFound(ref id)) if id == "nowhere"));
    assert_eq!(r.unwrap_err().message(), "Parent subgraph 'nowhere' not found");
    assert_eq!(chunks.len(), 6);
}

#[test]
fn create_node_in_empty_parent_goes_after_the_parent() {
    let mut chunks = vec![
        chunk("subgraph", Some("cluster_X"), (3, 9)),
        chunk("node", Some("D"), (12, 12)),
    ];
    let cmd = DotCommand::CreateNode {
        id: "N".to_string(),
        attrs: None,
        parent: Some("cluster_X".to_string()),
    };
    apply_command(&mut chunks, &cmd).unwrap();
    assert_eq!(chunks[1].id.as_deref(), Some("N"));
    assert_eq!(chunks[1].range, (4, 4));
}

#[test]
fn create_node_skips_nodes_inside_subgraphs() {
    let mut chunks = vec![
        chunk("node", Some("A"), (2, 2)),
        chunk("subgraph", Some("cluster_X"), (3, 9)),
        chunk("node", Some("B"), (4, 4)),
    ];
    let cmd = DotCommand::CreateNode { id: "N".to_string(), attrs: None, parent: None };
    apply_command(&mut chunks, &cmd).unwrap();
    assert_eq!(chunks[1].id.as_deref(), Some("N"));
    assert_eq!(chunks[1].range, (3, 3));
}

#[test]
fn create_node_in_empty_list_is_on_line_one() {
    let mut chunks: Vec<Chunk> = Vec::new();
    let cmd = DotCommand::CreateNode { id: "N".to_string(), attrs: None, parent: None };
    apply_command(&mut chunks, &cmd).unwrap();
    assert_eq!(chunks.len(), 1);
    assert_eq!(chunks[0].range, (1, 1));
    assert!(chunks[0].attrs.is_empty());
}

#[test]
fn create_subgraph_windows() {
    let mut chunks = vec![chunk("node", Some("A"), (2, 2))];
    let top = DotCommand::CreateSubgraph { id: Some("cluster_M".to_string()), parent: None };
    apply_command(&mut chunks, &top).unwrap();
    assert_eq!(chunks[1].kind, "subgraph");
    assert_eq!(chunks[1].range, (3, 13));

    let r = apply_command(&mut chunks, &top);
    assert!(matches!(r, Err(Error::SubgraphAlreadyExists(ref id)) if id == "cluster_M"));
    assert_eq!(r.unwrap_err().message(), "Subgraph 'cluster_M' already exists");

    let nested = DotCommand::CreateSubgraph {
        id: None,
        parent: Some("cluster_M".to_string()),
    };
    apply_command(&mut chunks, &nested).unwrap();
    assert_eq!(chunks[2].kind, "subgraph");
    assert_eq!(chunks[2].id, None);
    assert_eq!(chunks[2].range, (4, 12));
    // anonymous subgraphs may repeat
    apply_command(&mut chunks, &nested).unwrap();
    assert_eq!(chunks.len(), 4);
}

#[test]
fn graph_attributes_and_defaults() {
    let mut chunks = create_test_chunks();
    let set = DotCommand::SetGraphAttr { key: "rankdir".to_string(), value: "LR".to_string() };
    apply_command(&mut chunks, &set).unwrap();
    assert_eq!(chunks[0].kind, "id_eq");
    assert_eq!(chunks[0].extra.as_deref(), Some("LR"));
    assert_eq!(chunks[0].range, (1, 1));
    let set2 = DotCommand::SetGraphAttr { key: "rankdir".to_string(), value: "TB".to_string() };
    apply_command(&mut chunks, &set2).unwrap();
    assert_eq!(chunks.len(), 4);
    assert_eq!(chunks[0].extra.as_deref(), Some("TB"));

    let node = DotCommand::SetNodeDefault { attrs: "shape=box".to_string() };
    apply_command(&mut chunks, &node).unwrap();
    assert_eq!(chunks[0].kind, "attr_stmt");
    assert_eq!(chunks[0].id.as_deref(), Some("node"));
    let edge = DotCommand::SetEdgeDefault { attrs: "color=gray".to_string() };
    apply_command(&mut chunks, &edge).unwrap();
    assert_eq!(chunks[1].kind, "attr_stmt");
    assert_eq!(chunks[1].id.as_deref(), Some("edge"));
    let node2 = DotCommand::SetNodeDefault { attrs: "shape=circle style=filled".to_string() };
    apply_command(&mut chunks, &node2).unwrap();
    assert_eq!(chunks.len(), 6);
    assert_eq!(chunks[0].attrs.get("shape"), Some(&"circle".to_string()));
    assert_eq!(chunks[0].attrs.get("style"), Some(&"filled".to_string()));

    let del = DotCommand::DeleteAttr { key: "rankdir".to_string() };
    apply_command(&mut chunks, &del).unwrap();
    assert_eq!(chunks.len(), 5);
    let r = apply_command(&mut chunks, &del);
    assert!(matches!(r, Err(Error::AttributeNotFound(ref k)) if k == "rankdir"));
    assert_eq!(r.unwrap_err().message(), "Attribute 'rankdir' not found");
}

#[test]
fn line_numbers_stop_at_the_last_line() {
    let last = usize::MAX;
    let mut chunks = vec![chunk("node", Some("A"), (last, last))];
    apply_command(&mut chunks, &DotCommand::CreateNode { id: "B".to_string(), attrs: None, parent: None })
        .unwrap();
    assert_eq!(chunks[1].range, (last, last));
    apply_command(&mut chunks, &DotCommand::CreateSubgraph { id: Some("s".to_string()), parent: None })
        .unwrap();
    assert_eq!(chunks[2].range, (last, last));

    let mut chunks = vec![chunk("node", Some("A"), (last - 5, last - 5))];
    apply_command(&mut chunks, &DotCommand::CreateSubgraph { id: Some("s".to_string()), parent: None })
        .unwrap();
    assert_eq!(chunks[1].range, (last - 4, last));

    // a parent without lines: the inside of (0, 0) starts on line 1 and ends on line 0
    let mut chunks = vec![chunk("subgraph", Some("p"), (0, 0))];
    apply_command(
        &mut chunks,
        &DotCommand::CreateSubgraph { id: Some("q".to_string()), parent: Some("p".to_string()) },
    )
    .unwrap();
    assert_eq!(chunks[1].range, (1, 0));
}

#[test]
fn create_edge_in_parent_and_at_top_level() {
    let mut chunks = vec![
        chunk("node", Some("A"), (2, 2)),
        chunk("edge", Some("A"), (3, 3)),
        chunk("subgraph", Some("cluster_X"), (4, 9)),
        chunk("edge", Some("B"), (5, 5)),
        chunk("node", Some("Z"), (11, 11)),
    ];
    let top = DotCommand::CreateEdge {
        from: "A".to_string(),
        to: "Z".to_string(),
        attrs: Some("w=1".to_string()),
        parent: None,
    };
    apply_command(&mut chunks, &top).unwrap();
    // after the last edge that is not inside a subgraph
    assert_eq!(chunks[2].kind, "edge");
    assert_eq!(chunks[2].extra.as_deref(), Some("Z"));
    assert_eq!(chunks[2].range, (4, 4));

    let inside = DotCommand::CreateEdge {
        from: "B".to_string(),
        to: "C".to_string(),
        attrs: None,
        parent: Some("cluster_X".to_string()),
    };
    apply_command(&mut chunks, &inside).unwrap();
    assert_eq!(chunks[5].kind, "edge");
    assert_eq!(chunks[5].extra.as_deref(), Some("C"));
    assert_eq!(chunks[5].range, (6, 6));
    assert_eq!(chunks.len(), 7);
}

#[test]
fn a_refused_command_changes_nothing() {
    let mut chunks = create_test_chunks();
    let before: Vec<(String, Option<String>, (usize, usize))> =
        chunks.iter().map(|c| (c.kind.clone(), c.id.clone(), c.range)).collect();
    for cmd in [
        DotCommand::CreateNode { id: "A".to_string(), attrs: Some("x=1".to_string()), parent: None },
        DotCommand::CreateNode { id: "N".to_string(), attrs: None, parent: Some("none".to_string()) },
        DotCommand::UpdateNode { id: "N".to_string(), attrs: Some("x=1".to_string()) },
        DotCommand::DeleteNode { id: "N".to_string() },
        DotCommand::CreateEdge { from: "A".to_string(), to: "B".to_string(), attrs: None, parent: None },
        DotCommand::DeleteEdge { from: "B".to_string(), to: "A".to_string() },
        DotCommand::CreateSubgraph { id: None, parent: Some("none".to_string()) },
        DotCommand::DeleteSubgraph { id: "none".to_string() },
        DotCommand::DeleteAttr { key: "none".to_string() },
    ] {
        assert!(apply_command(&mut chunks, &cmd).is_err());
        let after: Vec<(String, Option<String>, (usize, usize))> =
            chunks.iter().map(|c| (c.kind.clone(), c.id.clone(), c.range)).collect();
        assert_eq!(before, after);
    }
}
