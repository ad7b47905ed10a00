use puml_tooling::preprocessor::procedure_ast::{
    Arg, BodyNode, MacroCallDef, ProcedureDef, ProcedureFile, Statement, TextPart,
};
use puml_tooling::preprocessor::procedure_expander::{ProcedureExpandError, ProcedureExpander};

fn call(name: &str, args: Vec<Arg>) -> MacroCallDef {
    MacroCallDef { name: name.to_string(), args, line: None }
}

fn text(parts: Vec<TextPart>) -> BodyNode {
    BodyNode::Text(parts)
}

fn lit(s: &str) -> TextPart {
    TextPart::Literal(s.to_string())
}

fn var(s: &str) -> TextPart {
    TextPart::Variable(s.to_string())
}

fn procedure(name: &str, params: &[&str], body: Vec<BodyNode>) -> Statement {
    Statement::Procedure(ProcedureDef {
        name: name.to_string(),
        params: params.iter().map(|p| p.to_string()).collect(),
        body,
    })
}

fn expand(stmts: Vec<Statement>) -> Result<String, ProcedureExpandError> {
    ProcedureExpander::new().expand(&ProcedureFile { stmts })
}

#[test]
fn simple_macro_substitutes_parameters() {
    let out = expand(vec![
        Statement::Text("@startuml".to_string()),
        procedure("$Box", &["$name", "$alias"], vec![text(vec![lit("rectangle \""), var("$name"), lit("\" as "), var("$alias")])]),
        Statement::MacroCall(call("$Box", vec![Arg::String("Hello".to_string()), Arg::Identifier("H".to_string())])),
        Statement::Text("@enduml".to_string()),
    ])
    .unwrap();
    assert_eq!(out, "@startuml\nrectangle \"Hello\" as H\n@enduml\n");
}

#[test]
fn definitions_after_the_call_are_visible_and_later_ones_win() {
    let out = expand(vec![
        Statement::MacroCall(call("$P", vec![Arg::Number(-42)])),
        procedure("$P", &["$n"], vec![text(vec![lit("first "), var("$n")])]),
        procedure("$P", &["$n"], vec![text(vec![lit("second "), var("$n")])]),
    ])
    .unwrap();
    assert_eq!(out, "second -42\n");
}

#[test]
fn nested_calls_pass_variables_down() {
    let out = expand(vec![
        procedure("$Inner", &["$x"], vec![text(vec![lit("inner "), var("$x")])]),
        procedure(
            "$Outer",
            &["$y"],
            vec![
                BodyNode::MacroCall(call("$Inner", vec![Arg::Variable("$y".to_string())])),
                text(vec![lit("outer "), var("$y"), lit(" "), var("$unbound")]),
            ],
        ),
        Statement::MacroCall(call("$Outer", vec![Arg::String("v".to_string())])),
    ])
    .unwrap();
    assert_eq!(out, "inner v\nouter v $unbound\n");
}

#[test]
fn unknown_plain_call_inside_a_body_is_written_back() {
    let out = expand(vec![
        procedure(
            "$P",
            &["$a"],
            vec![BodyNode::MacroCall(call(
                "skinparam",
                vec![
                    Arg::Variable("$a".to_string()),
                    Arg::String("$a".to_string()),
                    Arg::String("lit".to_string()),
                    Arg::Number(7),
                    Arg::Identifier("id".to_string()),
                ],
            ))],
        ),
        Statement::MacroCall(call("$P", vec![Arg::String("X".to_string())])),
    ])
    .unwrap();
    assert_eq!(out, "skinparam(X, \"X\", \"lit\", 7, id)\n");
}

#[test]
fn undefined_macros_are_errors() {
    assert_eq!(
        expand(vec![Statement::MacroCall(call("$Missing", vec![]))]),
        Err(ProcedureExpandError::MacroNotDefined("$Missing".to_string()))
    );
    // a plain name at top level must be defined too
    assert_eq!(
        expand(vec![Statement::MacroCall(call("plain", vec![]))]),
        Err(ProcedureExpandError::MacroNotDefined("plain".to_string()))
    );
}

#[test]
fn argument_count_must_match() {
    assert_eq!(
        expand(vec![
            procedure("$P", &["$a", "$b"], vec![]),
            Statement::MacroCall(call("$P", vec![Arg::Number(1)])),
        ]),
        Err(ProcedureExpandError::ArgumentMismatch { name: "$P".to_string(), expected: 2, actual: 1 })
    );
}

#[test]
fn unbound_variable_argument_is_an_error() {
    assert_eq!(
        expand(vec![
            procedure("$P", &["$a"], vec![]),
            Statement::MacroCall(call("$P", vec![Arg::Variable("$nope".to_string())])),
        ]),
        Err(ProcedureExpandError::UnknownVariable { name: "$nope".to_string() })
    );
}

#[test]
fn recursion_is_detected() {
    assert_eq!(
        expand(vec![
            procedure("$A", &[], vec![BodyNode::MacroCall(call("$B", vec![]))]),
            procedure("$B", &[], vec![BodyNode::MacroCall(call("$A", vec![]))]),
            Statement::MacroCall(call("$A", vec![])),
        ]),
        Err(ProcedureExpandError::RecursiveMacro {
            chain: vec!["$A".to_string(), "$B".to_string()],
            name: "$A".to_string(),
        })
    );
}

#[test]
fn nesting_deeper_than_the_limit_fails() {
    let mut stmts = Vec::new();
    for i in 0..12 {
        let body = if i < 11 {
            vec![BodyNode::MacroCall(call(&format!("$L{}", i + 1), vec![]))]
        } else {
            vec![text(vec![lit("leaf")])]
        };
        stmts.push(procedure(&format!("$L{}", i), &[], body));
    }
    stmts.push(Statement::MacroCall(call("$L0", vec![])));
    assert_eq!(expand(stmts), Err(ProcedureExpandError::MaxDepthExceeded));

    let mut shallow = Vec::new();
    for i in 0..11 {
        let body = if i < 10 {
            vec![BodyNode::MacroCall(call(&format!("$L{}", i + 1), vec![]))]
        } else {
            vec![text(vec![lit("leaf")])]
        };
        shallow.push(procedure(&format!("$L{}", i), &[], body));
    }
    shallow.push(Statement::MacroCall(call("$L0", vec![])));
    assert_eq!(expand(shallow).unwrap(), "leaf\n");
}

#[test]
fn empty_file_expands_to_nothing() {
    assert_eq!(expand(vec![]).unwrap(), "");
}
