use graph_delta::attrs::{lex_less, Attrs};
use graph_delta::chunk::Chunk;
use graph_delta::commands::DotCommand;
use graph_delta::lexer::escape_quotes;
use graph_delta::text::{chars_of, opt_eq, starts_with, str_eq, string_of};
use graph_delta::tool::get_tool_definitions;

#[test]
fn entries_stand_in_the_order_of_their_names() {
    let mut a = Attrs::new();
    for (k, v) in [("shape", "box"), ("label", "L"), ("URL", "/x"), ("color", "red"), ("label", "M"), ("a", "1"), ("ab", "2")] {
        a.insert(k.to_string(), v.to_string());
    }
    let keys: Vec<&str> = (0..a.len()).map(|i| a.key_at(i).as_str()).collect();
    assert_eq!(keys, vec!["URL", "a", "ab", "color", "label", "shape"]);
    assert_eq!(a.get("label"), Some(&"M".to_string()));
    assert_eq!(a.position("color"), Some(3));
    assert_eq!(a.position("nope"), None);
    assert_eq!(a.value_at(0), "/x");
    a.names_are_sorted();

    assert_eq!(a.remove("a"), Some("1".to_string()));
    assert_eq!(a.remove("a"), None);
    assert_eq!(a.len(), 5);
    assert!(!a.contains_key("a"));

    let mut b = Attrs::new();
    b.insert("zeta".to_string(), "z".to_string());
    b.insert("color".to_string(), "blue".to_string());
    let copy = a.clone();
    a.extend(&b);
    assert_eq!(a.len(), 6);
    assert_eq!(a.get("color"), Some(&"blue".to_string()));
    assert_eq!(a.key_at(5), "zeta");
    assert_eq!(copy.len(), 5);
    assert_eq!(copy.get("color"), Some(&"red".to_string()));
    assert!(Attrs::new().is_empty());
}

#[test]
fn names_are_ordered_character_by_character() {
    assert!(lex_less("a", "b"));
    assert!(lex_less("a", "ab"));
    assert!(lex_less("", "a"));
    assert!(lex_less("B", "a"));
    assert!(lex_less("ab", "b"));
    assert!(!lex_less("b", "ab"));
    assert!(!lex_less("a", "a"));
    assert!(!lex_less("a", ""));
    assert!(!lex_less("", ""));
    assert!(lex_less("z", "é"));
}

#[test]
fn text_helpers() {
    assert!(str_eq("abc", "abc"));
    assert!(!str_eq("abc", "abd"));
    assert!(!str_eq("abc", "ab"));
    assert!(opt_eq(&Some("x".to_string()), "x"));
    assert!(!opt_eq(&Some("x".to_string()), "y"));
    assert!(!opt_eq(&None, "x"));
    assert!(starts_with("cluster_a", "cluster_"));
    assert!(starts_with("cluster_", "cluster_"));
    assert!(!starts_with("cluster", "cluster_"));
    assert!(!starts_with("xcluster_a", "cluster_"));
    assert!(starts_with("anything", ""));
    let chars = chars_of("héllo");
    assert_eq!(chars, vec!['h', 'é', 'l', 'l', 'o']);
    assert_eq!(string_of(&chars, 1, 4), "éll");
    assert_eq!(string_of(&chars, 2, 2), "");
    assert_eq!(escape_quotes("a\"b\\c\nd\re"), "a\\\"b\\\\c\\nd\\re");
    assert_eq!(escape_quotes(""), "");
}

#[test]
fn copies_keep_every_field() {
    let c = Chunk::new("edge", Some("A".to_string()), Attrs::new(), (3, 4), Some("B".to_string()));
    let d = c.clone();
    assert_eq!(d.kind, "edge");
    assert_eq!(d.id.as_deref(), Some("A"));
    assert_eq!(d.extra.as_deref(), Some("B"));
    assert_eq!(d.range, (3, 4));
    assert!(d.is_kind("edge"));
    assert!(d.is_edge_between("A", "B"));
    assert!(!d.is_edge_between("B", "A"));
    assert!(!d.is_kind_id("node", "A"));
    assert!(d.is_kind_id("edge", "A"));

    let cmd = DotCommand::CreateEdge {
        from: "A".to_string(),
        to: "B".to_string(),
        attrs: Some("w=1".to_string()),
        parent: None,
    };
    match cmd.clone() {
        DotCommand::CreateEdge { from, to, attrs, parent } => {
            assert_eq!((from.as_str(), to.as_str()), ("A", "B"));
            assert_eq!(attrs.as_deref(), Some("w=1"));
            assert_eq!(parent, None);
        }
        other => panic!("unexpected command {:?}", other),
    }
}

#[test]
fn the_tools_are_listed_in_order() {
    let tools = get_tool_definitions();
    let names: Vec<&str> = tools.iter().map(|t| t.name.as_str()).collect();
    assert_eq!(
        names,
        vec![
            "get_node",
            "list_nodes",
            "get_edges",
            "create_node",
            "update_node",
            "delete_node",
            "create_edge",
            "delete_edge",
            "create_cluster"
        ]
    );
    let create = &tools[3];
    let required: Vec<&str> =
        create.parameters.iter().filter(|p| p.required).map(|p| p.name.as_str()).collect();
    assert_eq!(required, vec!["id", "label"]);
    let shape = create.parameters.iter().find(|p| p.name == "shape").unwrap();
    assert_eq!(shape.choices, vec!["box", "circle", "ellipse", "diamond", "cylinder"]);
    assert!(tools[1].parameters.iter().all(|p| !p.required));
    assert_eq!(create.description, "Create a new node in the graph");
}
