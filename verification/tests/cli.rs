use puml_tooling::cli::{fta_inputs, parse_failure_message, ParseAttempt};

fn attempt(parser: &str, error: &str, location: Option<(usize, usize)>) -> ParseAttempt {
    ParseAttempt { parser: parser.to_string(), error: error.to_string(), location }
}

#[test]
fn failure_reports_furthest_parser_and_its_line() {
    let attempts = vec![
        attempt("Component", "e1", Some((3, 1))),
        attempt("Activity", "e2", Some((5, 2))),
        attempt("Class", "e3", Some((5, 1))),
        attempt("Sequence", "e4", None),
    ];
    let content = "l1\nl2\nl3\nl4\n  line five  \nl6\n";
    assert_eq!(
        parse_failure_message("a.puml", content, &attempts),
        "Failed to parse a.puml with any available parser\n  Parsers tried: Component, Activity, Class, Sequence\n  Parser with longest match: Class\n  Failed at line 5: line five\n  Error: e3"
    );
}

#[test]
fn failure_without_locations_names_last_parser() {
    let attempts = vec![attempt("Component", "e1", None), attempt("Sequence", "e4", None)];
    assert_eq!(
        parse_failure_message("b.puml", "x", &attempts),
        "Failed to parse b.puml with any available parser\n  Parsers tried: Component, Sequence\n  Parser with longest match: Sequence\n  Error: e4"
    );
}

#[test]
fn failure_past_last_line_is_unknown() {
    let attempts = vec![attempt("Class", "bad", Some((9, 1)))];
    assert_eq!(
        parse_failure_message("c.puml", "one\ntwo", &attempts),
        "Failed to parse c.puml with any available parser\n  Parsers tried: Class\n  Parser with longest match: Class\n  Failed at line 9: <unknown>\n  Error: bad"
    );
}

#[test]
fn failure_without_attempts_has_no_detail() {
    assert_eq!(
        parse_failure_message("d.puml", "", &Vec::new()),
        "Failed to parse d.puml with any available parser"
    );
}

#[test]
fn fta_inputs_skip_metamodel() {
    let names = vec!["a.puml".to_string(), "fta_metamodel.puml".to_string(), "b.puml".to_string()];
    assert_eq!(fta_inputs(&names, "out"), Ok(vec![0, 2]));
}

#[test]
fn fta_inputs_reject_repeated_basename() {
    let names = vec![
        "fta.puml".to_string(),
        "fta_metamodel.puml".to_string(),
        "fta_metamodel.puml".to_string(),
        "fta.puml".to_string(),
    ];
    let err = fta_inputs(&names, "out/dir").unwrap_err();
    assert!(err.contains("duplicate FTA diagram basename"));
    assert_eq!(
        err,
        "duplicate FTA diagram basename \"fta.puml\": inputs in different directories would be indistinguishable in out/dir"
    );
}
