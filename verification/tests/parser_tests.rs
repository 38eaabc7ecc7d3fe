use graphviz_dot_parser::types::{GraphAST, Stmt};

fn parse(input: &str) -> (&str, GraphAST) {
    match graphviz_dot_parser::parse(input) {
        Ok(graph) => (&input[input.len()..], graph),
        Err(err) => panic!("syntax error at offset {}", err.position),
    }
}

#[test]
fn can_parse_empty_graph_1() {
    let input = "strict graph {}";
    let (rest, graph) = parse(input);
    assert_eq!(rest, "");
    assert_eq!(graph.is_strict, true);
    assert_eq!(graph.is_directed, false);
}

#[test]
fn can_parse_empty_graph_2() {
    let input = "graph {}";
    let (rest, graph) = parse(input);
    assert_eq!(rest, "");
    assert_eq!(graph.is_strict, false);
    assert_eq!(graph.is_directed, false);
}

#[test]
fn can_parse_empty_graph_3() {
    let input = "strict digraph {}";
    let (rest, graph) = parse(input);
    assert_eq!(rest, "");
    assert_eq!(graph.is_strict, true);
    assert_eq!(graph.is_directed, true);
}

#[test]
fn can_parse_empty_graph_4() {
    let input = "digraph {}";
    let (rest, graph) = parse(input);
    assert_eq!(rest, "");
    assert_eq!(graph.is_strict, false);
    assert_eq!(graph.is_directed, true);
}

#[test]
fn can_parse_empty_graph_with_id() {
    let input = "graph g {}";
    let (rest, graph) = parse(input);
    assert_eq!(rest, "");
    assert_eq!(graph.id, Some(String::from("g")));
}

#[test]
fn can_parse_numeric_id() {
    let input = "graph 2.34 {}";
    let (rest, graph) = parse(input);
    assert_eq!(rest, "");
    assert_eq!(graph.id, Some(String::from("2.34")));
}

#[test]
fn can_parse_quoted_id() {
    let input = "graph \"2.34\" {}";
    let (rest, graph) = parse(input);
    assert_eq!(rest, "");
    assert_eq!(graph.id, Some(String::from("2.34")));
}

#[test]
fn can_parse_quoted_id_with_space() {
    let input = "graph \"2 . 34\" {}";
    let (rest, graph) = parse(input);
    assert_eq!(rest, "");
    assert_eq!(graph.id, Some(String::from("2 . 34")));
}

#[test]
fn can_parse_quoted_id_with_escape() {
    let input = "graph \"2\\\"34\" {}";
    let (rest, graph) = parse(input);
    assert_eq!(rest, "");
    assert_eq!(graph.id, Some(String::from("2\"34")));
}

#[test]
fn can_parse_graph_with_nodes() {
    let input = "graph {
            1;
        }";
    let (rest, graph) = parse(input);
    assert_eq!(rest, "");
    assert_eq!(graph.stmt, vec![Stmt::Node(String::from("1"), vec![])])
}

#[test]
fn can_parse_graph_with_nodes_and_edges() {
    let input = "graph {
            1;
            2;
            1 -- 2;
        }";
    let (rest, graph) = parse(input);
    assert_eq!(rest, "");
    assert_eq!(
        graph.stmt,
        vec![
            Stmt::Node(String::from("1"), vec![]),
            Stmt::Node(String::from("2"), vec![]),
            Stmt::Edge(String::from("1"), String::from("2"), vec![]),
        ]
    )
}

#[test]
fn can_parse_graph_with_nodes_and_edges_directed() {
    let input = "digraph {
            1;
            2;
            1 -> 2;
        }";
    let (rest, graph) = parse(input);
    assert_eq!(rest, "");
    assert_eq!(
        graph.stmt,
        vec![
            Stmt::Node(String::from("1"), vec![]),
            Stmt::Node(String::from("2"), vec![]),
            Stmt::Edge(String::from("1"), String::from("2"), vec![]),
        ]
    )
}

#[test]
fn can_parse_graph_without_semicolon() {
    let input = "digraph {
            1
            2
            1 -> 2
        }";
    let (rest, graph) = parse(input);
    assert_eq!(rest, "");
    assert_eq!(
        graph.stmt,
        vec![
            Stmt::Node(String::from("1"), vec![]),
            Stmt::Node(String::from("2"), vec![]),
            Stmt::Edge(String::from("1"), String::from("2"), vec![]),
        ]
    )
}

#[test]
fn can_parse_graph_without_linebreak() {
    let input = "digraph {
            1 2 1 -> 2
        }";
    let (rest, graph) = parse(input);
    assert_eq!(rest, "");
    assert_eq!(
        graph.stmt,
        vec![
            Stmt::Node(String::from("1"), vec![]),
            Stmt::Node(String::from("2"), vec![]),
            Stmt::Edge(String::from("1"), String::from("2"), vec![]),
        ]
    )
}
