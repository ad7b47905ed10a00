use puml_tooling::preprocessor::utils::{normalize_path, strip_start_end};
use std::path::Path;

#[test]
fn normalize_path_test() {
    let path = Path::new("/a/b/../c/./d");
    let normalized = normalize_path(path.to_str().unwrap());
    assert_eq!(Path::new(&normalized), Path::new("/a/c/d"));
}

#[test]
fn normalize_path_root_and_parent() {
    // /../ should stay at root
    let path = Path::new("/../a");
    let normalized = normalize_path(path.to_str().unwrap());
    assert_eq!(Path::new(&normalized), Path::new("/a"));
}

#[test]
fn normalize_path_empty_and_cur() {
    // empty path -> empty
    let path = Path::new("");
    let normalized = normalize_path(path.to_str().unwrap());
    assert_eq!(Path::new(&normalized), Path::new(""));

    // ./././ -> empty
    let path = Path::new("./././");
    let normalized = normalize_path(path.to_str().unwrap());
    assert_eq!(Path::new(&normalized), Path::new(""));
}

#[test]
fn strip_start_end_test() {
    let text = "@startuml\nline1\nline2\n@enduml\n";
    let stripped = strip_start_end(text);
    assert_eq!(stripped, "line1\nline2\n");
}

#[test]
fn strip_start_end_no_tags() {
    let text = "line1\nline2\n";
    let stripped = strip_start_end(text);
    assert_eq!(stripped, "line1\nline2\n");
}

#[test]
fn strip_start_end_similar_tags() {
    let text = "!@startuml\nline1\nline2\n!@enduml\n";
    let stripped = strip_start_end(text);
    assert_eq!(stripped, "!@startuml\nline1\nline2\n!@enduml\n");
}

#[test]
fn strip_start_end_empty_string() {
    let text = "";
    let stripped = strip_start_end(text);
    assert_eq!(stripped, "");
}

#[test]
fn normalize_path_relative_parent_above_start_is_dropped() {
    assert_eq!(normalize_path("../x/./y//z/.."), "x/y");
    assert_eq!(normalize_path("/"), "/");
    assert_eq!(normalize_path("a/b/../../.."), "");
}

#[test]
fn strip_start_end_handles_crlf_indent_and_missing_final_newline() {
    assert_eq!(strip_start_end("  @startuml x\r\na\r\nb"), "a\nb\n");
    assert_eq!(strip_start_end("a\r"), "a\r\n");
    assert_eq!(strip_start_end("\n\n"), "\n\n");
}
