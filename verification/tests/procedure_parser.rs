use puml_tooling::parser_core::parse_tree::{ParseNode, Rule};
use puml_tooling::preprocessor::procedure_ast::{Arg, BodyNode, Statement, TextPart};
use puml_tooling::preprocessor::procedure_parser::{
    parse_arg, parse_macro_call, parse_procedure, parse_text_line, ProcedureParserService,
};

fn node_at(rule: Rule, text: &str, line: usize, children: Vec<ParseNode>) -> ParseNode {
    ParseNode { rule, text: text.to_string(), line, column: 1, end_line: line, end_column: 1 + text.len(), children }
}

fn node(rule: Rule, text: &str, children: Vec<ParseNode>) -> ParseNode {
    node_at(rule, text, 1, children)
}

fn leaf(rule: Rule, text: &str) -> ParseNode {
    node(rule, text, vec![])
}

fn arg(rule: Rule, text: &str) -> ParseNode {
    node(Rule::arg, text, vec![leaf(rule, text)])
}

fn call(name: &str, args: Vec<ParseNode>, line: usize) -> ParseNode {
    node_at(
        Rule::macro_call_line,
        "",
        line,
        vec![leaf(Rule::macro_identifier, name), node(Rule::arg_list, "", args)],
    )
}

#[test]
fn text_lines_split_into_literals_and_variables() {
    let parts = parse_text_line(&leaf(Rule::text_line, "rectangle \"$name\" as $alias_1!"));
    assert_eq!(
        parts,
        vec![
            TextPart::Literal("rectangle \"".to_string()),
            TextPart::Variable("$name".to_string()),
            TextPart::Literal("\" as ".to_string()),
            TextPart::Variable("$alias_1".to_string()),
            TextPart::Literal("!".to_string()),
        ]
    );
}

#[test]
fn dollar_after_a_name_character_stays_literal() {
    let parts = parse_text_line(&leaf(Rule::text_line, "123$val $"));
    assert_eq!(
        parts,
        vec![TextPart::Literal("123$val ".to_string()), TextPart::Variable("$".to_string())]
    );
    assert!(parse_text_line(&leaf(Rule::text_line, "")).is_empty());
}

#[test]
fn arguments_of_each_kind() {
    assert_eq!(parse_arg(&arg(Rule::macro_identifier, "$x")), Arg::Variable("$x".to_string()));
    assert_eq!(parse_arg(&arg(Rule::string, "\"G1\"")), Arg::String("G1".to_string()));
    assert_eq!(parse_arg(&arg(Rule::number, "-42")), Arg::Number(-42));
    assert_eq!(parse_arg(&arg(Rule::identifier, "foo")), Arg::Identifier("foo".to_string()));
}

#[test]
fn calls_carry_name_arguments_and_line() {
    let c = parse_macro_call(&call("$Gate", vec![arg(Rule::string, "\"OG\""), arg(Rule::number, "7")], 5));
    assert_eq!(c.name, "$Gate");
    assert_eq!(c.args, vec![Arg::String("OG".to_string()), Arg::Number(7)]);
    assert_eq!(c.line, Some(5));
}

#[test]
fn procedures_and_files_are_read_in_order() {
    let def = node(
        Rule::procedure_line,
        "",
        vec![
            leaf(Rule::proc_name, "$Top"),
            node(Rule::param_list, "", vec![leaf(Rule::param, "$name"), leaf(Rule::param, "$alias")]),
            node(
                Rule::procedure_body,
                "",
                vec![leaf(Rule::text_line, "rectangle $name"), call("$Inner", vec![], 3)],
            ),
        ],
    );
    let p = parse_procedure(&def);
    assert_eq!(p.name, "$Top");
    assert_eq!(p.params, vec!["$name".to_string(), "$alias".to_string()]);
    assert_eq!(p.body.len(), 2);
    assert!(matches!(&p.body[1], BodyNode::MacroCall(c) if c.name == "$Inner" && c.line == Some(3)));

    let file = node(
        Rule::file,
        "",
        vec![def, leaf(Rule::text_line, "   "), leaf(Rule::text_line, "  @startuml  "), call("$Top", vec![], 9)],
    );
    let parsed = ProcedureParserService.parse_file(&file);
    assert_eq!(parsed.stmts.len(), 3);
    assert!(matches!(&parsed.stmts[0], Statement::Procedure(d) if d.name == "$Top"));
    assert_eq!(parsed.stmts[1], Statement::Text("@startuml".to_string()));
    assert!(matches!(&parsed.stmts[2], Statement::MacroCall(c) if c.line == Some(9)));
}
