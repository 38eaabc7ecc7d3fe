use graphviz_dot_parser::parse;
use graphviz_dot_parser::types::Stmt;

// --- flags from keywords, case-insensitively, over an empty body ---

#[test]
fn flags_for_all_keyword_combinations() {
    let cases: Vec<(&str, bool, bool)> = vec![
        ("graph {}", false, false),
        ("digraph {}", false, true),
        ("strict graph {}", true, false),
        ("strict digraph {}", true, true),
        ("GRAPH {}", false, false),
        ("DiGrApH {}", false, true),
        ("STRICT Graph {}", true, false),
        ("StRiCt DIGRAPH {}", true, true),
    ];
    for (input, strict, directed) in cases {
        let g = parse(input).unwrap();
        assert_eq!(g.is_strict, strict);
        assert_eq!(g.is_directed, directed);
        assert_eq!(g.id, None);
        assert_eq!(g.stmt, vec![]);
    }
}

// --- whitespace-skipping idempotence: the three spellings agree ---

#[test]
fn whitespace_variants_give_identical_descriptor() {
    let a = parse("graph{}").unwrap();
    let b = parse("graph {}").unwrap();
    let c = parse("graph\n{\n}\n").unwrap();
    assert_eq!(a.is_strict, b.is_strict);
    assert_eq!(b.is_strict, c.is_strict);
    assert_eq!(a.is_directed, b.is_directed);
    assert_eq!(b.is_directed, c.is_directed);
    assert_eq!(a.id, b.id);
    assert_eq!(b.id, c.id);
    assert_eq!(a.stmt, b.stmt);
    assert_eq!(b.stmt, c.stmt);
}

// --- statement order is preserved, and materialization counts match ---

#[test]
fn statement_order_and_materialized_counts() {
    let g = parse("graph { 1; 2; 1 -- 2; }").unwrap();
    assert_eq!(
        g.stmt,
        vec![
            Stmt::Node(String::from("1"), vec![]),
            Stmt::Node(String::from("2"), vec![]),
            Stmt::Edge(String::from("1"), String::from("2"), vec![]),
        ]
    );
    let ug = g.to_undirected_graph().unwrap();
    assert_eq!(ug.node_count(), 2);
    assert_eq!(ug.edge_count(), 1);
}

// --- direction sensitivity: the operator must match the keyword ---

#[test]
fn wrong_edge_operator_is_rejected() {
    assert!(parse("digraph { 1; 2; 1 -- 2; }").is_err());
    assert!(parse("graph { 1; 2; 1 -> 2; }").is_err());
    let g = parse("digraph { 1; 2; 1 -> 2; }").unwrap();
    assert_eq!(g.is_directed, true);
    let dg = g.to_directed_graph().unwrap();
    assert_eq!(dg.is_directed(), true);
    assert_eq!(dg.node_count(), 2);
    assert_eq!(dg.edge_count(), 1);
}

// --- separator flexibility: newlines or spaces alone suffice ---

#[test]
fn separator_forms_agree() {
    let semi = parse("digraph { 1; 2; 1 -> 2; }").unwrap();
    let newline = parse("digraph { 1\n2\n1 -> 2 }").unwrap();
    let space = parse("digraph { 1 2 1 -> 2 }").unwrap();
    assert_eq!(semi.stmt, newline.stmt);
    assert_eq!(newline.stmt, space.stmt);
}

// --- trailing garbage is rejected ---

#[test]
fn trailing_garbage_is_rejected() {
    assert!(parse("graph {} extra").is_err());
    assert!(parse("graph {}}").is_err());
    assert!(parse("graph {} ").is_ok());
}

// --- unsupported escapes are rejected ---

#[test]
fn unsupported_escape_is_rejected() {
    assert!(parse("graph \"a\\nb\" {}").is_err());
    assert!(parse("graph \"a\\\\b\" {}").is_err());
}

#[test]
fn unterminated_quote_is_rejected() {
    assert!(parse("graph \"abc {}").is_err());
}

#[test]
fn empty_quoted_identifier() {
    let g = parse("graph \"\" {}").unwrap();
    assert_eq!(g.id, Some(String::new()));
}

// --- identifier forms ---

#[test]
fn numeral_identifier_forms() {
    assert_eq!(parse("graph -.5 {}").unwrap().id, Some(String::from("-.5")));
    assert_eq!(parse("graph -12 {}").unwrap().id, Some(String::from("-12")));
    assert_eq!(parse("graph 7. {}").unwrap().id, Some(String::from("7.")));
    assert_eq!(parse("graph _x9 {}").unwrap().id, Some(String::from("_x9")));
    assert!(parse("graph - {}").is_err());
}

// --- errors of the remaining kinds ---

#[test]
fn missing_direction_keyword_is_rejected() {
    assert!(parse("foo {}").is_err());
    assert!(parse("").is_err());
}

#[test]
fn missing_closing_brace_is_rejected() {
    assert!(parse("graph {").is_err());
    assert!(parse("graph { 1; ").is_err());
}

#[test]
fn error_carries_a_position_inside_the_input() {
    let err = parse("graph {} extra").unwrap_err();
    assert!(err.position <= "graph {} extra".len());
}

// --- attribute lists ---

#[test]
fn single_attribute_group() {
    let g = parse("graph { a [color=red] }").unwrap();
    assert_eq!(
        g.stmt,
        vec![Stmt::Node(
            String::from("a"),
            vec![(String::from("color"), String::from("red"))]
        )]
    );
}

#[test]
fn attribute_groups_concatenate_in_order() {
    let g = parse("graph { a [x=1][y=2] }").unwrap();
    assert_eq!(
        g.stmt,
        vec![Stmt::Node(
            String::from("a"),
            vec![
                (String::from("x"), String::from("1")),
                (String::from("y"), String::from("2")),
            ]
        )]
    );
}

#[test]
fn attribute_pairs_with_optional_separators() {
    let g = parse("graph { a [x=1,y=2;z=3] }").unwrap();
    assert_eq!(
        g.stmt,
        vec![Stmt::Node(
            String::from("a"),
            vec![
                (String::from("x"), String::from("1")),
                (String::from("y"), String::from("2")),
                (String::from("z"), String::from("3")),
            ]
        )]
    );
}

#[test]
fn duplicate_attribute_keys_are_preserved() {
    let g = parse("graph { a [k=1 k=2] }").unwrap();
    assert_eq!(
        g.stmt,
        vec![Stmt::Node(
            String::from("a"),
            vec![
                (String::from("k"), String::from("1")),
                (String::from("k"), String::from("2")),
            ]
        )]
    );
}

#[test]
fn edge_with_attributes() {
    let g = parse("digraph { a b a -> b [w=2] }").unwrap();
    assert_eq!(
        g.stmt,
        vec![
            Stmt::Node(String::from("a"), vec![]),
            Stmt::Node(String::from("b"), vec![]),
            Stmt::Edge(
                String::from("a"),
                String::from("b"),
                vec![(String::from("w"), String::from("2"))]
            ),
        ]
    );
}

// --- materializer behavior at its edges ---

#[test]
fn dangling_edge_reference_is_a_recoverable_failure() {
    // The endpoint ids were never declared by a node statement, so
    // materialization reports failure by returning nothing.
    let g = parse("graph { 1 -- 2; }").unwrap();
    assert!(g.to_undirected_graph().is_none());
}

#[test]
fn redeclared_node_makes_a_second_node_and_edges_use_the_latest() {
    let g = parse("digraph { a; a; b; a -> b; }").unwrap();
    let dg = g.to_directed_graph().unwrap();
    assert_eq!(dg.node_count(), 3);
    assert_eq!(dg.edge_count(), 1);
    // The edge leaves the second node declared as `a`, not the first.
    let ends = dg.edge_endpoints(petgraph::graph::EdgeIndex::new(0)).unwrap();
    assert_eq!(ends.0.index(), 1);
    assert_eq!(ends.1.index(), 2);
}

#[test]
fn empty_graph_materializes_empty() {
    let g = parse("graph {}").unwrap();
    let ug = g.to_undirected_graph().unwrap();
    assert_eq!(ug.node_count(), 0);
    assert_eq!(ug.edge_count(), 0);
}

#[test]
fn node_labels_keep_their_textual_ids() {
    let g = parse("digraph { x y x -> y }").unwrap();
    let dg = g.to_directed_graph().unwrap();
    let labels: Vec<&String> = dg.node_weights().collect();
    assert_eq!(labels, vec![&String::from("x"), &String::from("y")]);
}
