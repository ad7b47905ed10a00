use puml_tooling::parser_core::common_ast::{ArrowDirection, ArrowStyle};
use puml_tooling::parser_core::common_parser::{parse_arrow, parse_arrow_direction, parse_arrow_middle};
use puml_tooling::parser_core::parse_tree::{ParseNode, Rule};

#[test]
fn test_unknown_arrow_direction_error() {
    // An unknown direction token is reported as an error, never a panic.
    let err = parse_arrow_direction("sideways").unwrap_err();
    assert_eq!(err, "Unknown arrow direction token: 'sideways'");
}

#[test]
fn arrow_direction_tokens_and_abbreviations() {
    assert_eq!(parse_arrow_direction("up"), Ok(ArrowDirection::Up));
    assert_eq!(parse_arrow_direction("u"), Ok(ArrowDirection::Up));
    assert_eq!(parse_arrow_direction("do"), Ok(ArrowDirection::Down));
    assert_eq!(parse_arrow_direction("d"), Ok(ArrowDirection::Down));
    assert_eq!(parse_arrow_direction("le"), Ok(ArrowDirection::Left));
    assert_eq!(parse_arrow_direction("right"), Ok(ArrowDirection::Right));
    assert_eq!(parse_arrow_direction("ri"), Ok(ArrowDirection::Right));
    assert!(parse_arrow_direction("Up").is_err());
    assert!(parse_arrow_direction("").is_err());
}

fn arrow_leaf(rule: Rule, text: &str) -> ParseNode {
    ParseNode { rule, text: text.to_string(), line: 1, column: 1, end_line: 1, end_column: 1, children: vec![] }
}

#[test]
fn arrow_reads_decorations_segments_and_middle() {
    // "o--[#red]down->"
    let middle = ParseNode {
        rule: Rule::arrow_middle,
        text: "[#red]down".to_string(),
        line: 1,
        column: 1,
        end_line: 1,
        end_column: 1,
        children: vec![arrow_leaf(Rule::line_style_block, "[#red]"), arrow_leaf(Rule::arrow_direction, "down")],
    };
    let arrow = ParseNode {
        rule: Rule::connection_arrow,
        text: "o--[#red]down->".to_string(),
        line: 1,
        column: 1,
        end_line: 1,
        end_column: 1,
        children: vec![
            arrow_leaf(Rule::arrow_prefix, "o"),
            arrow_leaf(Rule::arrow_segment, "--"),
            middle,
            arrow_leaf(Rule::arrow_segment, "-"),
            arrow_leaf(Rule::arrow_suffix, ">"),
        ],
    };
    let a = parse_arrow(&arrow).expect("arrow must parse");
    assert_eq!(a.left.map(|d| d.raw).as_deref(), Some("o"));
    assert_eq!(a.right.map(|d| d.raw).as_deref(), Some(">"));
    assert_eq!(a.line.raw, "---");
    let m = a.middle.expect("middle part");
    assert_eq!(m.direction, Some(ArrowDirection::Down));
    assert_eq!(m.style, Some(ArrowStyle::default()));
    assert_eq!(m.decorator, None);
}

#[test]
fn arrow_with_unknown_direction_is_refused() {
    let middle = ParseNode {
        rule: Rule::arrow_middle,
        text: "sideways".to_string(),
        line: 1,
        column: 1,
        end_line: 1,
        end_column: 1,
        children: vec![arrow_leaf(Rule::arrow_direction, "sideways"), arrow_leaf(Rule::arrow_direction, "up")],
    };
    let err = parse_arrow_middle(&middle).unwrap_err();
    assert_eq!(err, "Unknown arrow direction token: 'sideways'");
    let arrow = ParseNode { rule: Rule::connection_arrow, text: String::new(), line: 1, column: 1, end_line: 1, end_column: 1, children: vec![middle] };
    assert_eq!(parse_arrow(&arrow).unwrap_err(), "Unknown arrow direction token: 'sideways'");
}
