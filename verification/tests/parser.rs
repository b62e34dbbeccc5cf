use graph_delta::chunk::Chunk;
use graph_delta::error::Error;
use graph_delta::parser::{parse_attribute_string, parse_dot_to_chunks, span_to_line_range, DotParser};
use graph_delta::serializer::chunks_to_complete_dot;

#[test]
fn parser_test_simple_roundtrip() {
    let dot = r#"digraph G {
    A [label="Node A"];
    B [label="Node B"];
    A -> B [color="red"];
}"#;

    let chunks = parse_dot_to_chunks(dot).expect("Parse failed");
    let reconstructed = chunks_to_complete_dot(&chunks, Some("G"));

    println!("Source:\n{}", dot);
    println!("\nReconstructed:\n{}", reconstructed);

    let chunks2 = parse_dot_to_chunks(&reconstructed).expect("Reconstructed parse failed");
    assert_eq!(chunks.len(), chunks2.len(), "Chunk count should match");

    let node_a = chunks.iter().find(|c| c.id.as_deref() == Some("A")).unwrap();
    assert_eq!(node_a.attrs.get("label"), Some(&"Node A".to_string()));
}

#[test]
fn parser_test_roundtrip_preserves_structure() {
    let dot = r#"digraph Test {
    node1 [color="blue"];
    node2 [shape="box"];
    node1 -> node2 [label="edge1"];
}"#;

    let chunks = parse_dot_to_chunks(dot).expect("Parse failed");
    let reconstructed = chunks_to_complete_dot(&chunks, Some("Test"));

    assert!(reconstructed.contains("node1"));
    assert!(reconstructed.contains("node2"));
    assert!(reconstructed.contains("node1 -> node2"));
    assert!(reconstructed.contains("color=\"blue\"") || reconstructed.contains("color=blue"));
    assert!(reconstructed.contains("shape=\"box\"") || reconstructed.contains("shape=box"));
    assert!(reconstructed.contains("color=blue"));
    assert!(reconstructed.contains("shape=box"));
}

#[test]
fn test_attribute_parsing() {
    let attrs_str = r#"label="Node \"A\"", color=red, style=dashed"#;
    let attrs = parse_attribute_string(attrs_str);
    assert_eq!(attrs.get("label"), Some(&"Node \"A\"".to_string()));
    assert_eq!(attrs.get("color"), Some(&"red".to_string()));
    assert_eq!(attrs.get("style"), Some(&"dashed".to_string()));
}

#[test]
fn test_parse_dot_to_chunks_basic() {
    let dot = r#"
        digraph G {
            A [label="Node A"];
            B [label="Node B"];
            A -> B [label="Edge from A to B"];
            subgraph cluster_0 {
                C [label="Node C"];
            }
        }
    "#;

    let chunks = parse_dot_to_chunks(dot).unwrap();

    assert!(chunks.iter().any(|c| c.kind == "node" && c.id.as_deref() == Some("A")));
    assert!(chunks.iter().any(|c| c.kind == "node" && c.id.as_deref() == Some("B")));
    assert!(chunks.iter().any(|c| c.kind == "edge" && c.id.as_deref() == Some("A")));
    assert!(chunks.iter().any(|c| c.kind == "subgraph"));
}

#[test]
fn test_large_statement_list() {
    let mut dot = String::from("digraph G {\n");
    for i in 0..10_000 {
        dot.push_str(&format!("    node{} [label=\"Node {}\"];\n", i, i));
    }
    dot.push_str("}\n");

    let result = parse_dot_to_chunks(&dot);
    assert!(result.is_ok(), "Should parse 10k nodes without stack overflow");
    let chunks = result.unwrap();
    assert!(chunks.len() >= 10_000, "Should have at least 10k chunks");
}

#[test]
fn test_long_edge_chain() {
    let mut dot = String::from("digraph G {\n    ");
    for i in 0..1000 {
        if i > 0 {
            dot.push_str(" -> ");
        }
        dot.push_str(&format!("node{}", i));
    }
    dot.push_str(";\n}\n");

    let result = parse_dot_to_chunks(&dot);
    assert!(result.is_ok(), "Should parse long edge chain without stack overflow");
}

#[test]
fn test_many_chained_attributes() {
    let mut dot = String::from("digraph G {\n    node1");
    for i in 0..100 {
        dot.push_str(&format!(" [attr{}=\"value{}\"]", i, i));
    }
    dot.push_str(";\n}\n");

    let result = parse_dot_to_chunks(&dot);
    assert!(result.is_ok(), "Should parse many chained attributes without stack overflow");
}

fn tuple(c: &Chunk) -> (String, Option<String>, Vec<(String, String)>, Option<String>) {
    let mut attrs = Vec::new();
    for i in 0..c.attrs.len() {
        attrs.push((c.attrs.key_at(i).clone(), c.attrs.value_at(i).clone()));
    }
    (c.kind.clone(), c.id.clone(), attrs, c.extra.clone())
}

#[test]
fn chunks_of_a_small_document() {
    let dot = "digraph G {\n  rankdir = LR;\n  node [shape=box];\n  A:p1 [label=\"a\\nb\", w=1.5];\n  A -> B:x:ne -> \"C D\" [color=red][style=dashed]\n  subgraph cluster_0 {\n    C;\n    { D }\n  }\n}\n";
    let chunks = parse_dot_to_chunks(dot).unwrap();
    let got: Vec<_> = chunks.iter().map(|c| (tuple(c), c.range)).collect();
    let s = |t: &str| t.to_string();
    let expected = vec![
        ((s("id_eq"), Some(s("rankdir")), vec![], Some(s("LR"))), (2, 2)),
        ((s("attr_stmt"), Some(s("node")), vec![(s("shape"), s("box"))], None), (3, 3)),
        (
            (s("node"), Some(s("A")), vec![(s("label"), s("a\nb")), (s("w"), s("1.5"))], None),
            (4, 4),
        ),
        (
            (
                s("edge"),
                Some(s("A")),
                vec![(s("color"), s("red")), (s("style"), s("dashed"))],
                Some(s("B:x:ne")),
            ),
            (5, 5),
        ),
        (
            (
                s("edge"),
                Some(s("B:x:ne")),
                vec![(s("color"), s("red")), (s("style"), s("dashed"))],
                Some(s("\"C D\"")),
            ),
            (5, 5),
        ),
        ((s("subgraph"), Some(s("cluster_0")), vec![], None), (6, 9)),
        ((s("node"), Some(s("C")), vec![], None), (7, 7)),
        ((s("subgraph"), None, vec![], None), (8, 8)),
        ((s("node"), Some(s("D")), vec![], None), (8, 8)),
    ];
    assert_eq!(got, expected);
}

#[test]
fn comments_and_headers() {
    let dot = "// leading\nstrict graph \"my graph\" { /* block\n comment */ a -- b; // trailing\n}\n// done\n";
    let chunks = parse_dot_to_chunks(dot).unwrap();
    assert_eq!(chunks.len(), 1);
    assert_eq!(chunks[0].kind, "edge");
    assert_eq!(chunks[0].id.as_deref(), Some("a"));
    assert_eq!(chunks[0].extra.as_deref(), Some("b"));
    assert_eq!(chunks[0].range, (3, 3));

    assert_eq!(parse_dot_to_chunks("digraph { }").unwrap().len(), 0);
    assert_eq!(parse_dot_to_chunks("graph{}").unwrap().len(), 0);
}

#[test]
fn malformed_documents_are_refused() {
    for bad in [
        "",
        "digraph",
        "digraph G {",
        "digraph G { A -> }",
        "digraph G { A [label=x }",
        "digraph G { A } trailing",
        "graf G { }",
        "digraph G { subgraph s A }",
        "digraph G { a = }",
        "digraph G { /* open",
        "digraph G { \"unterminated }",
        "digraph G { node:p [color=red] }",
        "digraph G { A -> subgraph -> C }",
        "digraph G { edge; }",
        "digraph G { graph -> A }",
    ] {
        let r = parse_dot_to_chunks(bad);
        assert!(matches!(r, Err(Error::ParseError(_))), "accepted: {:?}", bad);
    }
    let e = parse_dot_to_chunks("digraph G {\n A;\n B -> ;\n}").unwrap_err();
    assert_eq!(e.message(), "Parse error: line 3: expected a node after the edge operator");
}

#[test]
fn reserved_words_name_nodes_in_quotes_only() {
    let chunks = parse_dot_to_chunks("digraph G { \"node\" [color=red]; A -> \"subgraph\"; node = x; nodes; }").unwrap();
    assert_eq!(chunks.len(), 4);
    assert_eq!(chunks[0].kind, "node");
    assert_eq!(chunks[0].id.as_deref(), Some("\"node\""));
    assert_eq!(chunks[1].extra.as_deref(), Some("\"subgraph\""));
    assert_eq!(chunks[2].kind, "id_eq");
    assert_eq!(chunks[2].id.as_deref(), Some("node"));
    assert_eq!(chunks[3].kind, "node");
    assert_eq!(chunks[3].id.as_deref(), Some("nodes"));
    let e = parse_dot_to_chunks("digraph G {\n node;\n}").unwrap_err();
    assert_eq!(e.message(), "Parse error: line 2: expected a node id, not a reserved word");
}

#[test]
fn html_values_are_kept_as_written() {
    let attrs = parse_attribute_string("shape=plaintext label=<<table><tr><td>HTML</td></tr></table>>");
    assert_eq!(attrs.len(), 2);
    assert_eq!(attrs.get("shape"), Some(&"plaintext".to_string()));
    assert_eq!(
        attrs.get("label"),
        Some(&"<<table><tr><td>HTML</td></tr></table>>".to_string())
    );
}

#[test]
fn attribute_strings_edge_cases() {
    assert!(parse_attribute_string("").is_empty());
    assert!(parse_attribute_string("no entries here").is_empty());
    let a = parse_attribute_string("a=1; b = \"x\\\\y\" c=\"\" a=2 ,junk");
    assert_eq!(a.len(), 3);
    assert_eq!(a.get("a"), Some(&"2".to_string()));
    assert_eq!(a.get("b"), Some(&"x\\y".to_string()));
    assert_eq!(a.get("c"), Some(&"".to_string()));
    assert_eq!(a.key_at(0), "a");
    assert!(a.contains_key("c"));
    assert!(!a.contains_key("junk"));
    let p = DotParser::new("k=v");
    assert_eq!(p.attributes().get("k"), Some(&"v".to_string()));
}

#[test]
fn line_ranges_count_line_feeds() {
    let text = "ab\ncd\n\nef";
    assert_eq!(span_to_line_range(text, 0, 2), (1, 1));
    assert_eq!(span_to_line_range(text, 3, 7), (2, 4));
    assert_eq!(span_to_line_range(text, 9, 9), (4, 4));
}

const KITCHEN_SINK: &str = r##"// A document with a little of everything.
digraph KitchenSink {
    graph [rankdir=LR, fontname="Helvetica"];
    node [shape=box, style="rounded,filled", fillcolor="#e8f4ff"];
    edge [color=gray40];
    label = "Kitchen sink";

    A1 [label="A1: internal link", URL="/blog/69", tooltip="Go to 69"];
    A2 [label="A2", tooltip="Second"];
    RecNode [shape=record, label="<p0> left|<p1> right"];
    HTMLNode [shape=plaintext, label=<<table border="0"><tr><td>HTML</td></tr></table>>];
    StyleNode1 [penwidth=2.5, peripheries=2];

    A1 -> A2 [label="next"];
    A1 -> RecNode:p0:n [style=dashed];
    A2 -> HTMLNode -> StyleNode1;

    subgraph cluster_Outer {
        graph [label="Outer Cluster", color=blue];
        O1; O2;
        subgraph cluster_Inner {
            graph [label="Inner Cluster"];
            I1 -> I2;
        }
        O1 -> I1;
    }
    { rank = same; A1; A2 }
}
"##;

#[test]
fn parser_test_parse_dot_to_chunks_kitchen_sink() {
    let chunks = parse_dot_to_chunks(KITCHEN_SINK).expect("Parse failed");

    assert!(chunks.len() >= 10, "Expected at least 10 chunks, got {}", chunks.len());

    let a1_node = chunks
        .iter()
        .find(|c| c.kind == "node" && c.id.as_deref() == Some("A1") && !c.attrs.is_empty())
        .unwrap();
    assert!(!a1_node.attrs.is_empty(), "A1 should have attributes");
    assert_eq!(a1_node.attrs.get("label"), Some(&"A1: internal link".to_string()));
    assert_eq!(a1_node.attrs.get("URL"), Some(&"/blog/69".to_string()));

    let a2_node = chunks
        .iter()
        .find(|c| c.kind == "node" && c.id.as_deref() == Some("A2") && !c.attrs.is_empty())
        .unwrap();
    assert!(a2_node.attrs.get("tooltip").is_some(), "A2 should have tooltip attribute");

    let rec_node = chunks.iter().find(|c| c.kind == "node" && c.id.as_deref() == Some("RecNode")).unwrap();
    assert_eq!(rec_node.attrs.get("shape"), Some(&"record".to_string()));

    let a1_edges: Vec<_> =
        chunks.iter().filter(|c| c.kind == "edge" && c.id.as_deref() == Some("A1")).collect();
    assert!(!a1_edges.is_empty(), "Missing edges from A1");
    assert!(a1_edges.iter().any(|e| e.extra.as_deref() == Some("RecNode:p0:n")));

    let subgraphs: Vec<_> = chunks.iter().filter(|c| c.kind == "subgraph").collect();
    assert!(subgraphs.len() >= 2, "Expected at least 2 subgraphs");

    let outer_cluster = subgraphs.iter().find(|c| c.id.as_deref() == Some("cluster_Outer")).unwrap();
    let outer_attrs = chunks
        .iter()
        .find(|c| {
            c.kind == "attr_stmt"
                && c.id.as_deref() == Some("graph")
                && c.range.0 > outer_cluster.range.0
                && c.range.1 < outer_cluster.range.1
        })
        .unwrap();
    assert_eq!(outer_attrs.attrs.get("label"), Some(&"Outer Cluster".to_string()));

    let html_node = chunks.iter().find(|c| c.kind == "node" && c.id.as_deref() == Some("HTMLNode")).unwrap();
    assert_eq!(
        html_node.attrs.get("label"),
        Some(&"<<table border=\"0\"><tr><td>HTML</td></tr></table>>".to_string())
    );
    let style = chunks.iter().find(|c| c.id.as_deref() == Some("StyleNode1") && c.kind == "node").unwrap();
    assert!(style.attrs.contains_key("penwidth"));
    assert_eq!(outer_cluster.range, (18, 26));
    assert_eq!(chunks.iter().filter(|c| c.kind == "id_eq").count(), 2);
}

#[test]
fn parser_tests_test_parse_dot_to_chunks_kitchen_sink() {
    let chunks = parse_dot_to_chunks(KITCHEN_SINK).unwrap();

    assert!(chunks.len() >= 10, "Expected at least 10 chunks, got {}", chunks.len());
    assert!(
        chunks.iter().any(|c| c.kind == "node" && c.id.as_deref() == Some("A1")),
        "Missing node A1"
    );
    assert!(
        chunks.iter().any(|c| c.kind == "edge" && c.id.as_deref() == Some("A1")),
        "Missing edge from A1"
    );
    assert!(chunks.iter().any(|c| c.kind == "subgraph"), "Missing subgraph");
}
