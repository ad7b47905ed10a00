use puml_tooling::activity::activity_ast::{ControlKind, ForkEndKind, ForkModifier, RawActivitySourceSpan, RawActivityStmt};
use puml_tooling::activity::activity_parser::{ActivityParserError, PumlActivityParser};
use puml_tooling::parser_core::parse_tree::{ParseNode, Rule};

fn leaf(rule: Rule, text: &str) -> ParseNode {
    ParseNode { rule, text: text.to_string(), line: 1, column: 1, end_line: 1, end_column: 1, children: vec![] }
}

fn node(rule: Rule, text: &str, children: Vec<ParseNode>) -> ParseNode {
    ParseNode { rule, text: text.to_string(), line: 1, column: 1, end_line: 1, end_column: 1, children }
}

fn spanned(mut n: ParseNode, line: usize, column: usize, end_line: usize, end_column: usize) -> ParseNode {
    n.line = line;
    n.column = column;
    n.end_line = end_line;
    n.end_column = end_column;
    n
}

fn span() -> RawActivitySourceSpan {
    RawActivitySourceSpan { start_line: 1, start_column: 1, end_line: 1, end_column: 1 }
}

fn invalid(message: &str) -> ActivityParserError {
    ActivityParserError::InvalidStatement(message.to_string())
}

#[test]
fn diagram_reads_name_and_statements_in_order() {
    let pairs = vec![node(
        Rule::activity_diagram,
        "",
        vec![
            node(Rule::startuml, "@startuml flow", vec![leaf(Rule::puml_name, " flow ")]),
            spanned(leaf(Rule::start_stmt, "start"), 2, 1, 2, 6),
            spanned(node(Rule::action_stmt, ":Load  data;", vec![leaf(Rule::action_text, " Load  data ")]), 3, 1, 3, 13),
            node(
                Rule::if_start_stmt,
                "if (ok?) then (yes)",
                vec![leaf(Rule::condition_text, "ok?"), node(Rule::then_label, "(yes)", vec![leaf(Rule::condition_text, "yes")])],
            ),
            node(Rule::else_stmt, "else", vec![]),
            leaf(Rule::endif_stmt, "endif"),
            leaf(Rule::label, "' a comment"),
            leaf(Rule::stop_stmt, "stop"),
        ],
    )];
    let mut parser = PumlActivityParser;
    let diagram = parser.parse_file(&pairs).expect("diagram must be read");
    assert_eq!(diagram.name.as_deref(), Some("flow"));
    assert_eq!(diagram.statements.len(), 6);
    assert_eq!(diagram.statements[0].start_location(), (2, 1));
    match &diagram.statements[1] {
        RawActivityStmt::Action(a) => {
            assert_eq!(a.label, "Load data");
            assert_eq!(a.source.end_column, 13);
        },
        other => panic!("unexpected {:?}", other),
    }
    match &diagram.statements[2] {
        RawActivityStmt::IfStart(s) => {
            assert_eq!(s.condition, "ok?");
            assert_eq!(s.label.as_deref(), Some("yes"));
        },
        other => panic!("unexpected {:?}", other),
    }
    match &diagram.statements[3] {
        RawActivityStmt::Else(s) => assert_eq!(s.label, None),
        other => panic!("unexpected {:?}", other),
    }
}

#[test]
fn first_refused_statement_refuses_the_diagram() {
    let pairs = vec![node(
        Rule::activity_diagram,
        "",
        vec![leaf(Rule::control_stmt, "halt"), leaf(Rule::title_stmt, "tit")],
    )];
    let mut parser = PumlActivityParser;
    assert_eq!(parser.parse_file(&pairs).unwrap_err(), invalid("invalid control kind: halt"));
}

#[test]
fn title_control_and_arrow_statements() {
    let title = PumlActivityParser::parse_title_stmt(&leaf(Rule::title_stmt, " title  My Flow "), span()).unwrap();
    assert_eq!(title.text, "My Flow");
    assert_eq!(
        PumlActivityParser::parse_title_stmt(&leaf(Rule::title_stmt, "tit"), span()).unwrap_err(),
        invalid("missing title text")
    );
    let kill = PumlActivityParser::parse_control_stmt(&leaf(Rule::control_stmt, " kill "), span()).unwrap();
    assert_eq!(kill.kind, ControlKind::Kill);

    let arrow = node(Rule::arrow_stmt, "-> done;", vec![leaf(Rule::connection_arrow, " -> "), leaf(Rule::arrow_text, " done ")]);
    let a = PumlActivityParser::parse_arrow_stmt(&arrow, span()).unwrap();
    assert_eq!(a.syntax, "->");
    assert_eq!(a.label.as_deref(), Some("done"));
    assert_eq!(
        PumlActivityParser::parse_arrow_stmt(&node(Rule::arrow_stmt, "", vec![]), span()).unwrap_err(),
        invalid("missing arrow syntax")
    );
}

#[test]
fn action_labels_and_their_absence() {
    let backward = node(Rule::backward_stmt, "backward :retry;", vec![leaf(Rule::action_line_text, "retry")]);
    assert_eq!(PumlActivityParser::parse_backward_stmt(&backward, span()).unwrap().label, "retry");
    assert_eq!(
        PumlActivityParser::parse_action_stmt(&node(Rule::action_stmt, ":;", vec![]), span()).unwrap_err(),
        invalid("missing action label")
    );
}

#[test]
fn loops_take_their_conditions_and_labels() {
    let w = node(
        Rule::while_start_stmt,
        "",
        vec![
            leaf(Rule::condition_text, "more?"),
            leaf(Rule::condition_text, "ignored"),
            node(Rule::while_label, "", vec![leaf(Rule::condition_text, "yes")]),
        ],
    );
    let s = PumlActivityParser::parse_while_start_stmt(&w, span()).unwrap();
    assert_eq!(s.condition, "more?");
    assert_eq!(s.label.as_deref(), Some("yes"));

    let end = node(Rule::endwhile_stmt, "", vec![node(Rule::endwhile_label, "", vec![leaf(Rule::condition_text, "no")])]);
    assert_eq!(PumlActivityParser::parse_endwhile_stmt(&end, span()).unwrap().label.as_deref(), Some("no"));

    assert_eq!(
        PumlActivityParser::parse_repeat_while_stmt(&node(Rule::repeat_while_stmt, "", vec![]), span())
            .unwrap_err(),
        invalid("missing repeat while condition")
    );
}

#[test]
fn fork_end_kind_and_modifiers() {
    let merge = node(Rule::fork_end_stmt, "end merge {or}", vec![leaf(Rule::fork_modifier, "{or}")]);
    let s = PumlActivityParser::parse_fork_end_stmt(&merge, span()).unwrap();
    assert_eq!(s.kind, ForkEndKind::EndMerge);
    assert_eq!(s.modifier, Some(ForkModifier::Or));

    let bad = node(Rule::fork_end_stmt, "end fork {xor}", vec![leaf(Rule::fork_modifier, "{x}")]);
    assert_eq!(
        PumlActivityParser::parse_fork_end_stmt(&bad, span()).unwrap_err(),
        invalid("invalid fork modifier: {x}")
    );
}

#[test]
fn swimlane_needs_a_name() {
    let lane = node(Rule::swimlane_stmt, "|Backend|", vec![leaf(Rule::swimlane_text, "Backend")]);
    assert_eq!(PumlActivityParser::parse_swimlane_stmt(&lane, span()).unwrap().name, "Backend");
    assert_eq!(
        PumlActivityParser::parse_swimlane_stmt(&node(Rule::swimlane_stmt, "||", vec![]), span()).unwrap_err(),
        invalid("missing swimlane name")
    );
}

#[test]
fn other_rules_are_no_statements() {
    assert!(PumlActivityParser::parse_statement(&leaf(Rule::label, "note")).unwrap().is_empty());
}
