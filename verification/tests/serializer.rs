use graph_delta::attrs::Attrs;
use graph_delta::chunk::Chunk;
use graph_delta::commands::{apply_command, DotCommand};
use graph_delta::lexer::push_escaped;
use graph_delta::parser::{parse_attribute_string, parse_dot_to_chunks};
use graph_delta::serializer::{
    chunks_to_complete_dot, chunks_to_dot, chunks_to_dot_nested, chunks_to_dot_with_indent,
    format_dot_attributes, sort_by_start_line,
};

fn chunk(kind: &str, id: Option<&str>, attrs: &str, range: (usize, usize), extra: Option<&str>) -> Chunk {
    Chunk {
        kind: kind.to_string(),
        id: id.map(|s| s.to_string()),
        attrs: parse_attribute_string(attrs),
        range,
        extra: extra.map(|s| s.to_string()),
    }
}

#[test]
fn html_label_stays_unquoted() {
    let dot = r#"digraph Example { A [label="Node A"]; B [label="Node B"]; A -> B [label="edge"]; }"#;
    let mut chunks = parse_dot_to_chunks(dot).unwrap();
    assert_eq!(chunks.len(), 3);
    let cmd = DotCommand::CreateNode {
        id: "HTMLNode".to_string(),
        attrs: Some("shape=plaintext label=<<table><tr><td>HTML</td></tr></table>>".to_string()),
        parent: None,
    };
    apply_command(&mut chunks, &cmd).unwrap();
    let out = chunks_to_complete_dot(&chunks, Some("Example"));
    assert!(out.contains("HTMLNode [label=<<table><tr><td>HTML</td></tr></table>>"));
    assert!(!out.contains("label=\"<<table>"));
    assert_eq!(
        out,
        "digraph Example {\n    A [label=\"Node A\"];\n    B [label=\"Node B\"];\n    A -> B [label=edge];\n    HTMLNode [label=<<table><tr><td>HTML</td></tr></table>>, shape=plaintext];\n}\n"
    );
}

#[test]
fn attribute_values_are_quoted_as_needed() {
    let mut a = Attrs::new();
    a.insert("plain".to_string(), "abc123".to_string());
    a.insert("empty".to_string(), "".to_string());
    a.insert("spaced".to_string(), "a b".to_string());
    a.insert("html".to_string(), "<<b>x</b>>".to_string());
    a.insert("esc".to_string(), "q\"b\\n\nr\r".to_string());
    a.insert("angle".to_string(), "<".to_string());
    assert_eq!(
        format_dot_attributes(&a),
        "angle=\"<\", empty=\"\", esc=\"q\\\"b\\\\n\\nr\\r\", html=<<b>x</b>>, plain=abc123, spaced=\"a b\""
    );
    assert_eq!(format_dot_attributes(&Attrs::new()), "");

    let back = parse_attribute_string(&format_dot_attributes(&a));
    assert_eq!(back.len(), 6);
    for i in 0..a.len() {
        assert_eq!(back.key_at(i), a.key_at(i));
        assert_eq!(back.value_at(i), a.value_at(i));
    }
}

#[test]
fn escaping_marks_four_characters() {
    let mut out = String::from("x");
    push_escaped(&mut out, "a\\b\"c\nd\re");
    assert_eq!(out, "xa\\\\b\\\"c\\nd\\re");
}

#[test]
fn each_kind_has_its_text() {
    assert_eq!(chunk("node", Some("A"), "", (1, 1), None).to_dot(), "    A;");
    assert_eq!(chunk("node", None, "color=red", (1, 1), None).to_dot(), "    unknown [color=red];");
    assert_eq!(
        chunk("edge", Some("A"), "w=1, l=\"x y\"", (1, 1), Some("B:p")).to_dot(),
        "    A -> B:p [l=\"x y\", w=1];"
    );
    assert_eq!(chunk("edge", None, "", (1, 1), None).to_dot(), "    unknown -> unknown;");
    assert_eq!(chunk("attr_stmt", Some("node"), "shape=box", (1, 1), None).to_dot(), "    node [shape=box];");
    assert_eq!(chunk("attr_stmt", None, "", (1, 1), None).to_dot(), "    graph [];");
    assert_eq!(chunk("id_eq", Some("rankdir"), "", (1, 1), Some("LR")).to_dot(), "    rankdir = LR;");
    assert_eq!(chunk("id_eq", None, "", (1, 1), None).to_dot(), "    unknown = \"\";");
    assert_eq!(chunk("subgraph", Some("cluster_0"), "", (1, 1), None).to_dot(), "    subgraph cluster_0 {");
    assert_eq!(chunk("subgraph", None, "", (1, 1), None).to_dot(), "    subgraph {");
    assert_eq!(
        chunk("rank", Some("same"), "nodes=\"A,B,C\"", (0, 0), None).to_dot(),
        "    { rank=same; \"A\"; \"B\"; \"C\" }"
    );
    assert_eq!(chunk("rank", None, "", (0, 0), None).to_dot(), "    { rank=same; \"\" }");
    assert_eq!(chunk("mystery", Some("A"), "", (1, 1), None).to_dot(), "    // Unknown chunk type: mystery");
}

#[test]
fn flat_listing_leaves_subgraphs_out() {
    let chunks = vec![
        chunk("node", Some("A"), "", (1, 1), None),
        chunk("subgraph", Some("s"), "", (2, 4), None),
        chunk("node", Some("B"), "", (3, 3), None),
    ];
    assert_eq!(chunks_to_dot(&chunks), "    A;\n    B;\n");
    assert_eq!(chunks_to_dot_with_indent(&chunks, 2), "            A;\n            B;\n");
    assert_eq!(chunks_to_dot(&[]), "");
}

#[test]
fn nesting_follows_the_ranges() {
    let chunks = vec![
        chunk("node", Some("Z"), "", (9, 9), None),
        chunk("subgraph", Some("outer"), "label=O", (2, 8), None),
        chunk("node", Some("A"), "", (3, 3), None),
        chunk("subgraph", None, "", (4, 6), None),
        chunk("node", Some("B"), "", (5, 5), None),
        chunk("node", Some("C"), "", (7, 7), None),
        chunk("node", Some("First"), "", (1, 1), None),
    ];
    let out = chunks_to_dot_nested(&chunks, None);
    let expected = "digraph G {\n    First;\n    subgraph outer {\n        graph [label=O];\n        A;\n        subgraph  {\n            B;\n        }\n        C;\n    }\n    Z;\n}\n";
    assert_eq!(out, expected);
    assert_eq!(chunks_to_complete_dot(&chunks, None), expected);
    assert_eq!(chunks_to_complete_dot(&[], Some("Empty")), "digraph Empty {\n}\n");
}

#[test]
fn open_blocks_are_closed_at_the_end() {
    let chunks = vec![
        chunk("subgraph", Some("a"), "", (1, 10), None),
        chunk("subgraph", Some("b"), "", (2, 9), None),
        chunk("node", Some("N"), "", (3, 3), None),
    ];
    assert_eq!(
        chunks_to_complete_dot(&chunks, Some("G")),
        "digraph G {\n    subgraph a {\n        subgraph b {\n            N;\n        }\n    }\n}\n"
    );
}

#[test]
fn sorting_is_stable() {
    let chunks = vec![
        chunk("node", Some("c"), "", (3, 3), None),
        chunk("node", Some("a1"), "", (1, 1), None),
        chunk("node", Some("b"), "", (2, 2), None),
        chunk("node", Some("a2"), "", (1, 5), None),
        chunk("node", Some("z"), "", (0, 0), None),
    ];
    let sorted = sort_by_start_line(&chunks);
    let ids: Vec<&str> = sorted.iter().map(|c| c.id.as_deref().unwrap()).collect();
    assert_eq!(ids, vec!["z", "a1", "a2", "b", "c"]);
}

fn tuples(chunks: &[Chunk]) -> Vec<(String, Option<String>, Vec<(String, String)>, Option<String>)> {
    let mut out: Vec<_> = chunks
        .iter()
        .map(|c| {
            let mut attrs = Vec::new();
            for i in 0..c.attrs.len() {
                attrs.push((c.attrs.key_at(i).clone(), c.attrs.value_at(i).clone()));
            }
            (c.kind.clone(), c.id.clone(), attrs, c.extra.clone())
        })
        .collect();
    out.sort();
    out
}

#[test]
fn parse_serialize_parse_keeps_the_tuples() {
    let dot = "digraph G {\n  rankdir = LR;\n  node [shape=box, style=\"filled,rounded\"];\n  A [label=\"a \\\"q\\\" \\\\ b\\nline\", width=1.5];\n  \"B C\" [label=\"\"];\n  A -> \"B C\":p -> D [color=red];\n  subgraph cluster_0 {\n    graph [label=\"Zero\"];\n    C;\n    subgraph cluster_1 { E; E -> C }\n  }\n  { rank = same; A; D }\n}\n";
    let first = parse_dot_to_chunks(dot).unwrap();
    let text = chunks_to_complete_dot(&first, Some("G"));
    let second = parse_dot_to_chunks(&text).unwrap();
    assert_eq!(tuples(&first), tuples(&second));
    // and writing again changes nothing
    let again = chunks_to_complete_dot(&second, Some("G"));
    assert_eq!(text, again);
}

fn round_trip(dot: &str) {
    let first = parse_dot_to_chunks(dot).unwrap();
    let text = chunks_to_complete_dot(&first, Some("G"));
    let second = parse_dot_to_chunks(&text).unwrap();
    let a: Vec<_> = first.iter().map(|c| (c.kind.clone(), c.id.clone(), c.extra.clone())).collect();
    let b: Vec<_> = second.iter().map(|c| (c.kind.clone(), c.id.clone(), c.extra.clone())).collect();
    assert_eq!(a, b, "for {:?}", dot);
    for (x, y) in first.iter().zip(second.iter()) {
        assert_eq!(x.attrs.len(), y.attrs.len());
        for i in 0..x.attrs.len() {
            assert_eq!(x.attrs.key_at(i), y.attrs.key_at(i));
            assert_eq!(x.attrs.value_at(i), y.attrs.value_at(i));
        }
    }
    assert_eq!(chunks_to_complete_dot(&second, Some("G")), text, "for {:?}", dot);
}

#[test]
fn an_unbalanced_label_in_quotes_does_not_come_back() {
    let first = parse_dot_to_chunks("digraph { A [label=\"<>>\"] }").unwrap();
    assert_eq!(first[0].attrs.get("label"), Some(&"<>>".to_string()));
    let text = chunks_to_complete_dot(&first, None);
    assert!(text.contains("A [label=<>>];"));
    assert!(parse_dot_to_chunks(&text).is_err());
}

#[test]
fn many_documents_survive_the_round_trip() {
    for dot in [
        "digraph{}",
        "graph G { a -- b -- c }",
        "digraph { subgraph s { A; } B; }",
        "digraph { subgraph a {\n X; } Y;\n Z }",
        "digraph {\n subgraph a { subgraph b { subgraph c { X } } }\n}",
        "digraph { node []; edge [a=1][b=2]; graph [x=\"\"] }",
        "digraph { \"multi\nline\" -> B; C }",
        "digraph { A /* c */ : p1 : ne -> B : \"q r\"; }",
        "digraph { k = v; \"k 2\" = \"v 2\"; <k3> = <v<3>>; -1.5 = .5 }",
        "digraph { A [label=\"x\\\\y\\\"z\\n\\r\\t\", w=\"\"] }",
        "digraph { A [\"odd key\"=1, <html key>=2, _=3]; }",
        "strict digraph \"name\" { // c\n A -> B /* d */ -> C [w=1]; { D; E } }",
        "digraph { é -> ü [x=é]; }",
        "digraph { A [label=<<table><tr><td>x</td></tr></table>>, shape=plaintext]; A -> B [label=<b>] }",
    ] {
        round_trip(dot);
    }
}

#[test]
fn a_large_document_is_edited_and_written() {
    let mut dot = String::from("digraph G {\n");
    for i in 0..3000 {
        dot.push_str(&format!("    n{} [label=\"Node {}\"];\n", i, i));
    }
    dot.push_str("    subgraph cluster_a {\n");
    for i in 0..3000 {
        dot.push_str(&format!("        n{} -> n{};\n", i, (i + 1) % 3000));
    }
    dot.push_str("    }\n}\n");
    let mut chunks = parse_dot_to_chunks(&dot).unwrap();
    assert_eq!(chunks.len(), 6001);
    for i in 0..20 {
        let cmd = DotCommand::CreateNode {
            id: format!("extra{}", i),
            attrs: Some("color=red".to_string()),
            parent: if i % 2 == 0 { None } else { Some("cluster_a".to_string()) },
        };
        apply_command(&mut chunks, &cmd).unwrap();
    }
    assert_eq!(chunks.len(), 6021);
    let text = chunks_to_complete_dot(&chunks, Some("G"));
    let again = parse_dot_to_chunks(&text).unwrap();
    assert_eq!(again.len(), 6021);
    assert_eq!(chunks_to_complete_dot(&again, Some("G")), text);
}

#[test]
fn what_is_left_to_the_writer_is_written_the_same_again() {
    let chunks = vec![
        chunk("node", None, "", (1, 1), None),
        chunk("edge", None, "w=1", (2, 2), None),
        chunk("attr_stmt", None, "a=b", (3, 3), None),
        chunk("id_eq", None, "", (4, 4), None),
        chunk("subgraph", Some("cluster_a"), "label=\"Zone A\", color=red", (5, 8), None),
        chunk("node", Some("X"), "", (6, 6), Some("hidden")),
        chunk("subgraph", None, "k=v", (0, 0), None),
    ];
    let text = chunks_to_complete_dot(&chunks, None);
    assert_eq!(
        text,
        "digraph G {\n    subgraph  {\n        graph [k=v];\n    }\n    unknown;\n    unknown -> unknown [w=1];\n    graph [a=b];\n    unknown = \"\";\n    subgraph cluster_a {\n        graph [color=red, label=\"Zone A\"];\n        X;\n    }\n}\n"
    );
    let again = parse_dot_to_chunks(&text).unwrap();
    assert_eq!(again.len(), 9);
    assert_eq!(again[1].kind, "attr_stmt");
    assert_eq!(again[1].attrs.get("k"), Some(&"v".to_string()));
    assert_eq!(again[2].id.as_deref(), Some("unknown"));
    assert_eq!(again[5].extra.as_deref(), Some("\"\""));
    assert_eq!(again[7].attrs.get("label"), Some(&"Zone A".to_string()));
    assert_eq!(chunks_to_complete_dot(&again, None), text);
}

#[test]
fn a_new_cluster_with_attributes_is_written_the_same_again() {
    let mut chunks = parse_dot_to_chunks("digraph G {\n  A;\n  subgraph cluster_x {\n    B;\n  }\n}\n").unwrap();
    chunks.push(chunk("subgraph", Some("cluster_new"), "label=New", (0, 0), None));
    chunks[1].attrs.insert("color".to_string(), "blue".to_string());
    let text = chunks_to_complete_dot(&chunks, Some("G"));
    let again = parse_dot_to_chunks(&text).unwrap();
    assert_eq!(again.len(), chunks.len() + 2);
    assert_eq!(chunks_to_complete_dot(&again, Some("G")), text);
}

#[test]
fn letters_and_numbers_of_every_script_are_written_bare() {
    let mut a = Attrs::new();
    a.insert("a".to_string(), "é".to_string());
    a.insert("b".to_string(), "Ω٣x7".to_string());
    a.insert("c".to_string(), "→".to_string());
    a.insert("d".to_string(), "a_b".to_string());
    a.insert("e".to_string(), "x→y".to_string());
    a.insert("f".to_string(), "a-b".to_string());
    assert_eq!(
        format_dot_attributes(&a),
        "a=é, b=Ω٣x7, c=\"→\", d=\"a_b\", e=\"x→y\", f=\"a-b\""
    );
    let back = parse_attribute_string(&format_dot_attributes(&a));
    assert_eq!(back.len(), 6);
    for i in 0..a.len() {
        assert_eq!(back.key_at(i), a.key_at(i));
        assert_eq!(back.value_at(i), a.value_at(i));
    }
}

#[test]
fn an_empty_graph_name_is_written_and_read() {
    let chunks = parse_dot_to_chunks("digraph { A -> B; }").unwrap();
    let text = chunks_to_complete_dot(&chunks, Some(""));
    assert_eq!(text, "digraph  {\n    A -> B;\n}\n");
    let again = parse_dot_to_chunks(&text).unwrap();
    assert_eq!(tuples(&again), tuples(&chunks));
    assert_eq!(chunks_to_complete_dot(&again, Some("")), text);
}
