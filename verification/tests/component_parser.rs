use puml_tooling::component_diagram::component_ast::{PortType, Statement};
use puml_tooling::component_diagram::component_parser::{ComponentError, PumlComponentParser};
use puml_tooling::parser_core::note_utils::IgnoredNoteRegistry;
use puml_tooling::parser_core::parse_tree::{ParseNode, Rule};

fn leaf(rule: Rule, text: &str) -> ParseNode {
    ParseNode { rule, text: text.to_string(), line: 1, column: 1, end_line: 1, end_column: 1, children: vec![] }
}

fn node(rule: Rule, text: &str, children: Vec<ParseNode>) -> ParseNode {
    ParseNode { rule, text: text.to_string(), line: 1, column: 1, end_line: 1, end_column: 1, children }
}

fn at_line(mut n: ParseNode, line: usize) -> ParseNode {
    n.line = line;
    n.end_line = line;
    n
}

/// `component <name>` on `line`, with optional extra parts after the head.
fn component(name: &str, line: usize, extra: Vec<ParseNode>) -> ParseNode {
    let mut parts = vec![node(
        Rule::nested_element,
        "",
        vec![node(Rule::default_element, "", vec![leaf(Rule::element_kind, "component"), leaf(Rule::default_element_name, name)])],
    )];
    parts.extend(extra);
    node(Rule::diagram_statement, "", vec![at_line(node(Rule::element, "", parts), line)])
}

fn arrow(segments: &str) -> ParseNode {
    node(Rule::connection_arrow, segments, vec![leaf(Rule::arrow_segment, segments), leaf(Rule::arrow_suffix, ">")])
}

fn relation(left: &str, right: &str, line: usize) -> ParseNode {
    node(
        Rule::diagram_statement,
        "",
        vec![at_line(
            node(Rule::relation, "", vec![leaf(Rule::relation_left, left), arrow("--"), leaf(Rule::relation_right, right)]),
            line,
        )],
    )
}

fn note_with_alias(alias: &str) -> ParseNode {
    node(
        Rule::note_declaration,
        "",
        vec![node(Rule::note_single_line, "", vec![leaf(Rule::description_text, "\"boundary\""), leaf(Rule::note_alias, alias)])],
    )
}

fn document(items: Vec<ParseNode>) -> Vec<ParseNode> {
    let mut parts = vec![node(Rule::startuml, "@startuml", vec![])];
    parts.extend(items);
    vec![node(Rule::diagram_start, "", parts)]
}

#[test]
fn test_valid_document_succeeds() {
    // @startuml / component A / component B / A --> B / @enduml
    let pairs = document(vec![component("A", 2, vec![]), component("B", 3, vec![]), relation("A", "B", 4)]);
    let mut parser = PumlComponentParser;
    let result = parser.parse_file(&pairs, "test.puml");
    assert!(result.is_ok());
    let doc = result.unwrap();
    assert_eq!(doc.statements.len(), 3);
}

#[test]
fn test_statement_count_matches_source() {
    // component "Alpha" as A / component "Beta" as B / A --> B : link
    let alias = |a: &str| node(Rule::alias_clause, "", vec![leaf(Rule::ALIAS_ID, a)]);
    let link = node(
        Rule::diagram_statement,
        "",
        vec![node(
            Rule::relation,
            "",
            vec![
                leaf(Rule::relation_left, "A"),
                arrow("--"),
                leaf(Rule::relation_right, "B"),
                node(Rule::relation_description, ": link", vec![leaf(Rule::description_text, " link")]),
            ],
        )],
    );
    let pairs = document(vec![
        component("\"Alpha\"", 2, vec![alias("A")]),
        component("\"Beta\"", 3, vec![alias("B")]),
        link,
    ]);
    let mut parser = PumlComponentParser;
    let doc = parser.parse_file(&pairs, "test.puml").expect("valid diagram must parse");
    assert_eq!(doc.statements.len(), 3, "all statements must be present; none may be silently dropped");
    match &doc.statements[2] {
        Statement::Relation(r) => assert_eq!(r.description.as_deref(), Some("link")),
        other => panic!("unexpected {:?}", other),
    }
}

#[test]
fn test_component_statement_count() {
    let pairs = document(vec![component("A", 2, vec![]), component("B", 3, vec![]), relation("A", "B", 4)]);
    let mut parser = PumlComponentParser;
    let doc = parser.parse_file(&pairs, "t.puml").expect("valid input must parse");
    assert_eq!(doc.statements.len(), 3);
}

#[test]
fn component_parser_test_source_locations_are_preserved() {
    let pairs = document(vec![component("A", 2, vec![]), component("B", 3, vec![]), relation("A", "B", 4)]);
    let mut parser = PumlComponentParser;
    let doc = parser.parse_file(&pairs, "t.puml").expect("valid input must parse");

    let first_element = match &doc.statements[0] {
        Statement::Element(element) => element,
        actual => panic!("expected first statement to be an element, got {:?}", actual),
    };
    assert_eq!(first_element.identity.source_location.line, 2);
    assert_eq!(first_element.identity.source_location.file.as_str(), "t.puml");

    let relation = match &doc.statements[2] {
        Statement::Relation(relation) => relation,
        actual => panic!("expected third statement to be a relation, got {:?}", actual),
    };
    assert_eq!(relation.source_location.line, 4);
    assert_eq!(relation.source_location.file.as_str(), "t.puml");
}

#[test]
fn test_single_line_note_alias_relation_is_filtered() {
    // component Baselibs / note "Repository boundary" as N1 / Baselibs -[hidden]down-> N1
    let pairs = document(vec![
        component("Baselibs", 2, vec![]),
        note_with_alias("N1"),
        relation("Baselibs", "N1", 4),
    ]);
    let mut parser = PumlComponentParser;
    let doc = parser.parse_file(&pairs, "t.puml").expect("valid input must parse");
    assert_eq!(doc.statements.len(), 1);
    assert!(matches!(doc.statements[0], Statement::Element(_)));
}

#[test]
fn test_multiline_note_alias_relation_is_filtered() {
    // the relation comes before the note here: the filter uses every alias registered
    let multiline = node(
        Rule::diagram_statement,
        "",
        vec![node(Rule::note_declaration, "", vec![node(Rule::note_multiline, "", vec![leaf(Rule::note_alias, "N1")])])],
    );
    let pairs = document(vec![component("Baselibs", 2, vec![]), relation("N1", "Baselibs", 3), multiline]);
    let mut parser = PumlComponentParser;
    let doc = parser.parse_file(&pairs, "t.puml").expect("valid input must parse");
    assert_eq!(doc.statements.len(), 1);
    assert!(matches!(doc.statements[0], Statement::Element(_)));
}

#[test]
fn test_quoted_component_name_matches_quoted_relation_endpoint() {
    let pairs = document(vec![
        component("\"score::mw::log\"", 2, vec![]),
        component("ApplicationLogic", 3, vec![]),
        relation("ApplicationLogic", "\"score::mw::log\"", 4),
    ]);
    let mut parser = PumlComponentParser;
    let doc = parser.parse_file(&pairs, "t.puml").expect("valid input must parse");
    let element_name = match &doc.statements[0] {
        Statement::Element(element) => element.identity.name.as_deref().expect("component name must be present"),
        actual => panic!("expected first statement to be an element, got {:?}", actual),
    };
    let relation_rhs = match &doc.statements[2] {
        Statement::Relation(relation) => relation.rhs.as_str(),
        actual => panic!("expected third statement to be a relation, got {:?}", actual),
    };
    assert_eq!(element_name, "score::mw::log");
    assert_eq!(relation_rhs, "score::mw::log");
}

#[test]
fn test_nested_element_stereotype_before_alias_is_accepted() {
    // component Example <<component>> as ExampleAlias
    let modifier = node(
        Rule::element_modifier,
        "",
        vec![
            node(Rule::stereotype, "<<component>>", vec![leaf(Rule::STEREOTYPE_NAME, "component")]),
            node(Rule::alias_clause, "as ExampleAlias", vec![leaf(Rule::ALIAS_ID, "ExampleAlias")]),
        ],
    );
    let pairs = document(vec![component("Example", 2, vec![modifier])]);
    let mut parser = PumlComponentParser;
    let doc = parser.parse_file(&pairs, "t.puml").expect("valid input must parse");
    let element = match &doc.statements[0] {
        Statement::Element(element) => element,
        actual => panic!("expected first statement to be an element, got {:?}", actual),
    };
    assert_eq!(element.identity.name.as_deref(), Some("Example"));
    assert_eq!(element.identity.alias.as_deref(), Some("ExampleAlias"));
    assert_eq!(element.identity.stereotype.as_deref(), Some("component"));
}

#[test]
fn nested_blocks_keep_statements_and_filter_inside() {
    let block = node(
        Rule::statement_block,
        "",
        vec![
            component("Inner", 3, vec![]),
            node(Rule::note_declaration, "", vec![leaf(Rule::note_alias, "N")]),
            relation("Inner", "N", 5),
            node(
                Rule::diagram_statement,
                "",
                vec![node(Rule::together_block, "", vec![component("T1", 6, vec![]), component("T2", 7, vec![])])],
            ),
        ],
    );
    let outer = node(
        Rule::diagram_statement,
        "",
        vec![at_line(
            node(
                Rule::element,
                "",
                vec![
                    node(
                        Rule::short_form_interface,
                        "()\"API\"",
                        vec![leaf(Rule::short_form_interface_name, "\"API\"")],
                    ),
                    leaf(Rule::element_style, "#red"),
                    block,
                ],
            ),
            2,
        )],
    );
    let pairs = document(vec![outer]);
    let mut parser = PumlComponentParser;
    let doc = parser.parse_file(&pairs, "t.puml").unwrap();
    match &doc.statements[0] {
        Statement::Element(e) => {
            assert_eq!(e.identity.element_kind, "interface");
            assert_eq!(e.identity.name.as_deref(), Some("API"));
            assert!(e.style.is_some());
            // Inner, then the two together-block components; the relation to the note is gone
            assert_eq!(e.statements.len(), 3);
            assert!(e.statements.iter().all(|s| matches!(s, Statement::Element(_))));
        },
        other => panic!("unexpected {:?}", other),
    }
}

#[test]
fn ports_take_their_direction_name_and_alias() {
    let port = node(
        Rule::port_declaration,
        "",
        vec![
            leaf(Rule::port_keyword, "portin"),
            leaf(Rule::port_name, "rx"),
            node(Rule::alias_clause, "", vec![leaf(Rule::ALIAS_ID, "R")]),
        ],
    );
    let p = PumlComponentParser::parse_port(&port).unwrap();
    assert_eq!(p.port_type, PortType::PortIn);
    assert_eq!(p.name, "rx");
    assert_eq!(p.alias.as_deref(), Some("R"));
    let plain = node(Rule::port_declaration, "", vec![leaf(Rule::port_keyword, "port"), leaf(Rule::port_name, "p")]);
    assert_eq!(PumlComponentParser::parse_port(&plain).unwrap().port_type, PortType::Port);
}

#[test]
fn a_refused_arrow_refuses_the_relation() {
    let bad = node(
        Rule::relation,
        "",
        vec![
            leaf(Rule::relation_left, "A"),
            node(
                Rule::connection_arrow,
                "",
                vec![node(Rule::arrow_middle, "", vec![leaf(Rule::arrow_direction, "sideways")])],
            ),
            leaf(Rule::relation_right, "B"),
        ],
    );
    assert_eq!(
        PumlComponentParser::parse_relation(&bad, "t.puml").unwrap_err(),
        ComponentError::InvalidStatement("invalid arrow: Unknown arrow direction token: 'sideways'".to_string())
    );
}

#[test]
fn filtering_keeps_relations_between_other_elements() {
    let mut notes = IgnoredNoteRegistry::new();
    notes.register("N");
    let mut parser = PumlComponentParser;
    let doc = parser.parse_file(&document(vec![relation("A", "B", 2)]), "t.puml").unwrap();
    let kept = PumlComponentParser::filter_note_relations(doc.statements, &notes);
    assert_eq!(kept.len(), 1);
}
