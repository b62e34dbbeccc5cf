use graph_delta::attrs::Attrs;
use graph_delta::commands::DotCommand;
use graph_delta::error::Error;
use graph_delta::parser::parse_dot_to_chunks;
use graph_delta::tool::{
    execute_query_tool, get_system_prompt, is_query_tool, tool_call_to_command, QueryResult,
};

fn params(pairs: &[(&str, &str)]) -> Attrs {
    let mut a = Attrs::new();
    for (k, v) in pairs {
        a.insert(k.to_string(), v.to_string());
    }
    a
}

#[test]
fn tool_calls_become_commands() {
    let cmd = tool_call_to_command(
        "create_node",
        &params(&[("id", "S"), ("label", "Web Server"), ("shape", "box"), ("color", "#fff"), ("parent", "cluster_0")]),
    )
    .unwrap();
    match cmd {
        DotCommand::CreateNode { id, attrs, parent } => {
            assert_eq!(id, "S");
            assert_eq!(attrs.as_deref(), Some("label=\"Web Server\" shape=box color=\"#fff\""));
            assert_eq!(parent.as_deref(), Some("cluster_0"));
        }
        other => panic!("unexpected command {:?}", other),
    }
    let cmd = tool_call_to_command("create_node", &params(&[("id", "S")])).unwrap();
    assert!(matches!(cmd, DotCommand::CreateNode { ref id, attrs: None, parent: None } if id == "S"));

    let cmd = tool_call_to_command("update_node", &params(&[("id", "S"), ("color", "red")])).unwrap();
    assert!(matches!(cmd, DotCommand::UpdateNode { ref id, ref attrs } if id == "S" && attrs.as_deref() == Some("color=\"red\"")));

    let cmd = tool_call_to_command("delete_node", &params(&[("id", "S")])).unwrap();
    assert!(matches!(cmd, DotCommand::DeleteNode { ref id } if id == "S"));

    let cmd = tool_call_to_command("create_edge", &params(&[("from", "A"), ("to", "B"), ("label", "l"), ("shape", "x")])).unwrap();
    assert!(matches!(cmd, DotCommand::CreateEdge { ref from, ref to, ref attrs, parent: None }
        if from == "A" && to == "B" && attrs.as_deref() == Some("label=\"l\"")));

    let cmd = tool_call_to_command("delete_edge", &params(&[("from", "A"), ("to", "B")])).unwrap();
    assert!(matches!(cmd, DotCommand::DeleteEdge { ref from, ref to } if from == "A" && to == "B"));

    let cmd = tool_call_to_command("create_cluster", &params(&[("id", "cluster_x"), ("label", "X")])).unwrap();
    assert!(matches!(cmd, DotCommand::CreateSubgraph { ref id, parent: None } if id.as_deref() == Some("cluster_x")));
}

#[test]
fn tool_calls_are_refused() {
    let r = tool_call_to_command("paint", &params(&[("id", "S")]));
    assert!(matches!(r, Err(Error::UnknownTool(ref n)) if n == "paint"));
    assert_eq!(r.unwrap_err().message(), "Unknown tool: paint");

    let r = tool_call_to_command("create_node", &params(&[("label", "x")]));
    assert!(matches!(r, Err(Error::MissingParameter(ref n)) if n == "id"));
    assert_eq!(r.unwrap_err().message(), "Missing 'id' parameter");

    let r = tool_call_to_command("update_node", &params(&[("id", "x")]));
    assert!(matches!(r, Err(Error::MissingParameter(ref n)) if n == "attributes"));

    let r = tool_call_to_command("create_edge", &params(&[("to", "x")]));
    assert!(matches!(r, Err(Error::MissingParameter(ref n)) if n == "from"));
    let r = tool_call_to_command("delete_edge", &params(&[("from", "x")]));
    assert!(matches!(r, Err(Error::MissingParameter(ref n)) if n == "to"));
    let r = tool_call_to_command("get_node", &params(&[("id", "x")]));
    assert!(matches!(r, Err(Error::UnknownTool(_))));
}

#[test]
fn queries_read_the_list() {
    let chunks = parse_dot_to_chunks(
        "digraph G {\n  A [label=a];\n  subgraph cluster_0 {\n    B;\n    C;\n    B -> C;\n  }\n  A -> B;\n  C -> A;\n  D;\n}\n",
    )
    .unwrap();
    let n = chunks.len();

    match execute_query_tool("get_node", &params(&[("id", "A")]), &chunks).unwrap() {
        QueryResult::Node(c) => {
            assert_eq!(c.id.as_deref(), Some("A"));
            assert_eq!(c.attrs.get("label"), Some(&"a".to_string()));
        }
        other => panic!("unexpected result {:?}", other),
    }
    let r = execute_query_tool("get_node", &params(&[("id", "Q")]), &chunks);
    assert!(matches!(r, Err(Error::NodeNotFound(ref id)) if id == "Q"));
    let r = execute_query_tool("get_node", &params(&[]), &chunks);
    assert!(matches!(r, Err(Error::MissingParameter(ref p)) if p == "id"));

    let ids = |r: QueryResult| -> Vec<String> {
        match r {
            QueryResult::Nodes(v) => v.iter().map(|c| c.id.clone().unwrap()).collect(),
            other => panic!("unexpected result {:?}", other),
        }
    };
    assert_eq!(ids(execute_query_tool("list_nodes", &params(&[]), &chunks).unwrap()), vec!["A", "B", "C", "D"]);
    assert_eq!(
        ids(execute_query_tool("list_nodes", &params(&[("parent", "cluster_0")]), &chunks).unwrap()),
        vec!["B", "C"]
    );
    assert!(ids(execute_query_tool("list_nodes", &params(&[("parent", "nowhere")]), &chunks).unwrap()).is_empty());

    match execute_query_tool("get_edges", &params(&[("node_id", "A")]), &chunks).unwrap() {
        QueryResult::Edges(v) => {
            let ends: Vec<(&str, &str)> =
                v.iter().map(|c| (c.id.as_deref().unwrap(), c.extra.as_deref().unwrap())).collect();
            assert_eq!(ends, vec![("A", "B"), ("C", "A")]);
        }
        other => panic!("unexpected result {:?}", other),
    }
    let r = execute_query_tool("get_edges", &params(&[]), &chunks);
    assert!(matches!(r, Err(Error::MissingParameter(ref p)) if p == "node_id"));
    let r = execute_query_tool("create_node", &params(&[("id", "A")]), &chunks);
    assert!(matches!(r, Err(Error::UnknownTool(ref t)) if t == "create_node"));
    assert_eq!(chunks.len(), n);
}

#[test]
fn queries_are_told_from_edits() {
    for q in ["get_node", "list_nodes", "get_edges"] {
        assert!(is_query_tool(q));
    }
    for e in ["create_node", "update_node", "delete_node", "create_edge", "delete_edge", "create_cluster", "", "get_nodes"] {
        assert!(!is_query_tool(e));
    }
}

#[test]
fn the_system_prompt_names_the_tools() {
    let p = get_system_prompt();
    assert!(p.starts_with("You are a graph modification assistant."));
    for tool in ["get_node", "list_nodes", "get_edges", "create_node", "create_edge", "create_cluster", "update_node", "delete_node", "delete_edge"] {
        assert!(p.contains(tool));
    }
    assert!(p.ends_with("Keep responses brief. Focus on the tools, not explanations."));
}

#[test]
fn the_system_prompt_is_whole() {
    let p = get_system_prompt();
    assert_eq!(p.len(), 877);
    assert_eq!(p.lines().count(), 21);
    assert!(p.contains("3. Be concise - don't query information you don't need\n\nExample workflow for \"add a node called Server connected to DB\":\n1. Call create_node with id=\"Server\", label=\"Server\"\n"));
}
