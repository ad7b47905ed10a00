use puml_tooling::parser_core::parse_tree::{ParseNode, Rule};
use puml_tooling::preprocessor::include_ast::{IncludeKind, IncludeSuffix};
use puml_tooling::preprocessor::include_parser::IncludeParserService;

fn node(rule: Rule, text: &str, children: Vec<ParseNode>) -> ParseNode {
    ParseNode { rule, text: text.to_string(), line: 1, column: 1, end_line: 1, end_column: 1 + text.len(), children }
}

fn leaf(rule: Rule, text: &str) -> ParseNode {
    node(rule, text, vec![])
}

fn suffix(text: &str) -> ParseNode {
    let body = &text[1..];
    let inner = if body.chars().all(|c| c.is_ascii_digit()) {
        leaf(Rule::include_index, body)
    } else {
        leaf(Rule::include_label, body)
    };
    node(Rule::include_suffix, text, vec![inner])
}

#[test]
fn test_extract_path() {
    let pair = leaf(Rule::include_path, "path/to/file");
    let path = IncludeParserService.extract_path(&pair);
    assert_eq!(path, "path/to/file");
}

#[test]
fn test_extract_suffix_index() {
    let pair = suffix("!1");
    let s = IncludeParserService.extract_suffix(&pair);
    assert!(matches!(s, IncludeSuffix::Index(1)));
}

#[test]
fn test_extract_suffix_label() {
    let pair = suffix("!label1");
    let s = IncludeParserService.extract_suffix(&pair);
    assert!(matches!(s, IncludeSuffix::Label(ref l) if l == "label1"));
}

#[test]
fn test_parse_include_directive() {
    let input = "!include path/to/file";
    let pair = node(
        Rule::include_directive,
        input,
        vec![leaf(Rule::include_keyword, "!include"), leaf(Rule::include_path, "path/to/file")],
    );
    let (kind, path) = IncludeParserService.parse_include_directive(&pair);
    assert!(matches!(kind, IncludeKind::Include));
    assert_eq!(path, "path/to/file");
}

#[test]
fn test_parse_includesub_directive() {
    let input = "!includesub path/to/file!2";
    let pair = node(
        Rule::includesub_directive,
        input,
        vec![leaf(Rule::include_path, "path/to/file"), suffix("!2")],
    );
    let (path, s) = IncludeParserService.parse_includesub_directive(&pair);
    assert_eq!(path, "path/to/file");
    assert!(matches!(s, IncludeSuffix::Index(2)));
}

#[test]
fn include_keywords_select_the_kind_and_paths_are_trimmed() {
    for (kw, expected) in [
        ("!include_once", IncludeKind::IncludeOnce),
        ("!include_many", IncludeKind::IncludeMany),
    ] {
        let pair = node(
            Rule::include_directive,
            "",
            vec![leaf(Rule::include_keyword, kw), leaf(Rule::include_path, "  a/b.puml ")],
        );
        let (kind, path) = IncludeParserService.parse_include_directive(&pair);
        assert_eq!(kind, expected);
        assert_eq!(path, "a/b.puml");
    }
}
