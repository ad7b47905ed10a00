use puml_tooling::golden::normalize_yaml_text;

#[test]
fn yaml_text_is_trimmed_lines_without_blanks() {
    assert_eq!(normalize_yaml_text("  a: 1 \n\n  b\r\n\n"), "a: 1\nb\n");
    assert_eq!(normalize_yaml_text("x"), "x\n");
    assert_eq!(normalize_yaml_text(""), "\n");
    assert_eq!(normalize_yaml_text(" \n \t\n"), "\n");
}

#[test]
fn yaml_text_is_idempotent_on_example() {
    let once = normalize_yaml_text("  @startuml\n A -> B\n\n@enduml  ");
    assert_eq!(once, "@startuml\nA -> B\n@enduml\n");
    assert_eq!(normalize_yaml_text(&once), once);
}
