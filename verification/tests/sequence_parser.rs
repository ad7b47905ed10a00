use puml_tooling::parser_core::parse_tree::{ParseNode, Rule};
use puml_tooling::sequence::sequence_ast::{
    GroupCmd, GroupKind, MessageEndpoint, MessageSuffix, ParticipantType, Statement,
};
use puml_tooling::sequence::sequence_parser::{PumlSequenceParser, SequenceError};

fn leaf(rule: Rule, text: &str) -> ParseNode {
    ParseNode { rule, text: text.to_string(), line: 1, column: 1, end_line: 1, end_column: 1, children: vec![] }
}

fn node(rule: Rule, text: &str, children: Vec<ParseNode>) -> ParseNode {
    ParseNode { rule, text: text.to_string(), line: 1, column: 1, end_line: 1, end_column: 1, children }
}

fn at_line(mut n: ParseNode, line: usize) -> ParseNode {
    n.line = line;
    n.end_line = line;
    n
}

fn statement(line: usize, inner: ParseNode) -> ParseNode {
    at_line(node(Rule::sequence_statement, "", vec![inner]), line)
}

fn participant(kind: &str, name: &str, line: usize) -> ParseNode {
    statement(
        line,
        node(
            Rule::participant_def,
            "",
            vec![
                leaf(Rule::participant_type, kind),
                node(Rule::participant_identifier, name, vec![leaf(Rule::alias_only, name)]),
            ],
        ),
    )
}

fn endpoint(name: &str) -> ParseNode {
    node(
        Rule::message_endpoint,
        name,
        vec![node(Rule::inline_participant, name, vec![leaf(Rule::alias_only, name)])],
    )
}

fn arrow() -> ParseNode {
    node(Rule::sequence_arrow, "->", vec![leaf(Rule::arrow_segment, "-"), leaf(Rule::arrow_suffix, ">")])
}

fn message(left: &str, right: &str, description: &str, line: usize) -> ParseNode {
    statement(
        line,
        node(
            Rule::message,
            "",
            vec![
                node(Rule::message_body, "", vec![node(Rule::message_full, "", vec![endpoint(left), arrow(), endpoint(right)])]),
                node(Rule::sequence_description, description, vec![leaf(Rule::sequence_text_content, description)]),
            ],
        ),
    )
}

fn document(statements: Vec<ParseNode>) -> Vec<ParseNode> {
    let mut items = vec![at_line(node(Rule::startuml, "@startuml", vec![]), 1)];
    items.extend(statements);
    vec![node(Rule::sequence_start, "", items)]
}

#[test]
fn test_valid_participant_is_present_in_output() {
    // @startuml / participant Alice / participant Bob / Alice -> Bob : hello / @enduml
    let pairs = document(vec![
        participant("participant", "Alice", 2),
        participant("participant", "Bob", 3),
        message("Alice", "Bob", "hello", 4),
    ]);
    let doc = PumlSequenceParser::parse_document(&pairs, "test.puml").expect("valid diagram must parse");

    // 2 participant defs + 1 message = 3 statements
    assert_eq!(doc.statements.len(), 3, "all statements must be present; none may be silently dropped");
}

#[test]
fn test_sequence_statement_count() {
    let pairs = document(vec![participant("participant", "A", 2), participant("participant", "B", 3), message("A", "B", "call", 4)]);
    let doc = PumlSequenceParser::parse_document(&pairs, "t.puml").expect("valid input must parse");
    assert_eq!(doc.statements.len(), 3);
}

#[test]
fn sequence_parser_test_source_locations_are_preserved() {
    let pairs = document(vec![participant("participant", "A", 2), participant("participant", "B", 3), message("A", "B", "call", 4)]);
    let doc = PumlSequenceParser::parse_document(&pairs, "t.puml").expect("valid input must parse");

    let first_participant = match &doc.statements[0] {
        Statement::ParticipantDef(participant) => participant,
        actual => panic!("expected first statement to be a participant, got {:?}", actual),
    };
    assert_eq!(first_participant.source_location.line, 2);
    assert_eq!(first_participant.source_location.file.as_str(), "t.puml");

    let message = match &doc.statements[2] {
        Statement::Message(message) => message,
        actual => panic!("expected third statement to be a message, got {:?}", actual),
    };
    assert_eq!(message.source_location.line, 4);
    assert_eq!(message.source_location.file.as_str(), "t.puml");
}

#[test]
fn test_statement_after_multiline_ref_is_preserved() {
    // ref over Alice, Bob / initialize service / end ref / Alice -> Bob : done
    let refs = statement(
        2,
        node(
            Rule::ref_stmt,
            "",
            vec![
                node(
                    Rule::participant_list,
                    "Alice, Bob",
                    vec![
                        node(Rule::participant_ref, "Alice", vec![leaf(Rule::CNAME, "Alice")]),
                        node(Rule::participant_ref, "Bob", vec![leaf(Rule::CNAME, "Bob")]),
                    ],
                ),
                leaf(Rule::ref_body, "\n  initialize service\n"),
            ],
        ),
    );
    let pairs = document(vec![refs, message("Alice", "Bob", "done", 5)]);
    let doc = PumlSequenceParser::parse_document(&pairs, "t.puml").expect("statement after multiline ref must parse");

    match &doc.statements[0] {
        Statement::RefCmd(ref_cmd) => {
            assert_eq!(ref_cmd.text.as_deref(), Some("initialize service"));
            assert_eq!(ref_cmd.participants.len(), 2);
            assert_eq!(ref_cmd.participants[1].identifier, "Bob");
        },
        actual => panic!("expected ref statement, got {:?}", actual),
    }
    match &doc.statements[1] {
        Statement::Message(message) => {
            assert_eq!(message.description.as_deref(), Some("done"));
            assert_eq!(message.source_location.line, 5);
        },
        actual => panic!("expected message after ref statement, got {:?}", actual),
    }
}

#[test]
fn participant_type_is_case_insensitive_and_checked() {
    let ok = leaf(Rule::participant_type, "DataBase");
    assert_eq!(PumlSequenceParser::parse_participant_type(&ok).unwrap(), ParticipantType::Database);
    let bad = leaf(Rule::participant_type, "Robot");
    assert_eq!(
        PumlSequenceParser::parse_participant_type(&bad).unwrap_err(),
        SequenceError::InvalidStatement("unsupported participant type: robot".to_string())
    );
}

#[test]
fn participant_identifier_shapes() {
    let quoted_alias = node(
        Rule::participant_identifier,
        "",
        vec![node(
            Rule::quoted_display_with_alias,
            "\"Long Name\" as L",
            vec![leaf(Rule::quoted_display, " \"Long Name\" "), leaf(Rule::alias_only, "L")],
        )],
    );
    let id = PumlSequenceParser::parse_participant_identifier(&quoted_alias).unwrap();
    assert_eq!(id.display_name, "Long Name");
    assert_eq!(id.alias.as_deref(), Some("L"));

    let alias_first = node(
        Rule::participant_identifier,
        "",
        vec![node(Rule::alias_with_quoted_display, "", vec![leaf(Rule::alias_only, "L"), leaf(Rule::quoted_display, "\"Long\"")])],
    );
    let id = PumlSequenceParser::parse_participant_identifier(&alias_first).unwrap();
    assert_eq!(id.display_name, "Long");
    assert_eq!(id.alias.as_deref(), Some("L"));

    let broken = node(Rule::participant_identifier, "", vec![node(Rule::display_with_alias, "", vec![leaf(Rule::alias_only, "A")])]);
    assert_eq!(
        PumlSequenceParser::parse_participant_identifier(&broken).unwrap_err(),
        SequenceError::InvalidStatement("display_with_alias grammar shape changed".to_string())
    );

    let empty = node(Rule::participant_identifier, "", vec![]);
    assert_eq!(
        PumlSequenceParser::parse_participant_identifier(&empty).unwrap_err(),
        SequenceError::InvalidStatement("participant_identifier must contain a participant identifier".to_string())
    );

    let odd = node(Rule::participant_identifier, "", vec![leaf(Rule::label, "x")]);
    assert_eq!(
        PumlSequenceParser::parse_participant_identifier(&odd).unwrap_err(),
        SequenceError::InvalidStatement("unsupported participant_identifier grammar value: label".to_string())
    );
}

#[test]
fn message_missing_left_uses_lost_found_marker() {
    let body = node(Rule::message_body, "", vec![node(Rule::message_missing_left, "", vec![arrow(), endpoint("Bob")])]);
    let (left, _, right) = PumlSequenceParser::parse_message_body(&body).unwrap();
    assert_eq!(left, MessageEndpoint::LostFound("?".to_string()));
    match right {
        MessageEndpoint::Participant(p) => assert_eq!(p.display_name, "Bob"),
        other => panic!("unexpected {:?}", other),
    }

    let no_arrow = node(Rule::message_body, "", vec![node(Rule::message_full, "", vec![endpoint("A"), endpoint("B")])]);
    assert_eq!(
        PumlSequenceParser::parse_message_body(&no_arrow).unwrap_err(),
        SequenceError::InvalidStatement("message body must contain arrow".to_string())
    );
}

#[test]
fn message_suffixes_combine() {
    let one = node(Rule::message_suffix, "++", vec![leaf(Rule::activate_suffix, "++")]);
    assert_eq!(PumlSequenceParser::parse_message_suffix(&one).unwrap(), MessageSuffix::Activate);
    let two = node(Rule::message_suffix, "++**", vec![leaf(Rule::activate_suffix, "++"), leaf(Rule::create_suffix, "**")]);
    assert_eq!(
        PumlSequenceParser::parse_message_suffix(&two).unwrap(),
        MessageSuffix::Combined(vec![MessageSuffix::Activate, MessageSuffix::Create])
    );
}

#[test]
fn groups_start_branch_and_end() {
    let start = node(
        Rule::group_cmd,
        "",
        vec![node(
            Rule::group_start,
            "",
            vec![leaf(Rule::parallel_marker, "&"), leaf(Rule::group_start_type, "ALT"), leaf(Rule::group_label, " ok ")],
        )],
    );
    match PumlSequenceParser::parse_group_cmd(&start, Default::default()).unwrap() {
        GroupCmd::Start(g) => {
            assert_eq!(g.kind, GroupKind::Alt);
            assert_eq!(g.label.as_deref(), Some("ok"));
            assert!(g.is_parallel);
        },
        other => panic!("unexpected {:?}", other),
    }
    let branch = node(Rule::group_cmd, "", vec![node(Rule::group_branch, "", vec![leaf(Rule::group_label, "no")])]);
    assert_eq!(
        PumlSequenceParser::parse_group_cmd(&branch, Default::default()).unwrap_err(),
        SequenceError::InvalidStatement("missing group branch kind".to_string())
    );
    let end = node(Rule::group_cmd, "", vec![node(Rule::group_end, "", vec![])]);
    match PumlSequenceParser::parse_group_cmd(&end, Default::default()).unwrap() {
        GroupCmd::End(g) => assert_eq!(g.kind, None),
        other => panic!("unexpected {:?}", other),
    }
    let bad = node(Rule::group_cmd, "", vec![node(Rule::group_start, "", vec![leaf(Rule::group_start_type, "maybe")])]);
    assert_eq!(
        PumlSequenceParser::parse_group_cmd(&bad, Default::default()).unwrap_err(),
        SequenceError::InvalidStatement("unsupported group kind: maybe".to_string())
    );
}

#[test]
fn short_activation_and_return() {
    let short = node(
        Rule::activation_short,
        "A--",
        vec![node(Rule::participant_ref, "A", vec![leaf(Rule::CNAME, "A")]), leaf(Rule::deactivate_suffix, "--")],
    );
    match PumlSequenceParser::parse_activation_short(&short).unwrap().as_slice() {
        [Statement::DeactivateCmd(d)] => assert_eq!(d.participant.identifier, "A"),
        other => panic!("unexpected {:?}", other),
    }
    let ret = node(Rule::return_cmd, "", vec![leaf(Rule::sequence_text_content, "  ")]);
    assert_eq!(PumlSequenceParser::parse_return_cmd(&ret, Default::default()).label, None);
}

#[test]
fn unmodelled_statements_yield_nothing_and_empty_ones_are_refused() {
    let skipped = statement(2, leaf(Rule::label, "skinparam"));
    assert!(PumlSequenceParser::parse_statement(&skipped, "t.puml").unwrap().is_empty());
    let empty = at_line(node(Rule::sequence_statement, "", vec![]), 2);
    assert_eq!(
        PumlSequenceParser::parse_statement(&empty, "t.puml").unwrap_err(),
        SequenceError::InvalidStatement("empty statement".to_string())
    );
}

#[test]
fn document_name_comes_from_startuml() {
    let pairs = vec![node(
        Rule::sequence_start,
        "",
        vec![node(Rule::startuml, "@startuml flow", vec![leaf(Rule::puml_name, " flow ")])],
    )];
    let doc = PumlSequenceParser::parse_document(&pairs, "t.puml").unwrap();
    assert_eq!(doc.name.as_deref(), Some("flow"));
}

#[test]
fn keywords_are_read_in_any_letter_case() {
    assert_eq!(PumlSequenceParser::participant_type_keyword("actor"), Some(ParticipantType::Actor));
    assert_eq!(PumlSequenceParser::participant_type_keyword("Actor"), None);
    assert_eq!(PumlSequenceParser::group_kind_keyword("critical"), Some(GroupKind::Critical));
    assert_eq!(PumlSequenceParser::group_kind_keyword("crit"), None);
    let t = PumlSequenceParser::parse_participant_type(&leaf(Rule::participant_type, "DataBase"));
    assert!(matches!(t, Ok(ParticipantType::Database)));
    let k = PumlSequenceParser::parse_group_kind(&leaf(Rule::group_start_type, "LOOP"));
    assert!(matches!(k, Ok(GroupKind::Loop)));
    let bad = PumlSequenceParser::parse_group_kind(&leaf(Rule::group_start_type, "Maybe"));
    match bad {
        Err(SequenceError::InvalidStatement(m)) => assert_eq!(m, "unsupported group kind: maybe"),
        _ => panic!("expected an error"),
    }
}
