use puml_tooling::parser_core::note_utils::{find_note_alias, is_note_rule, IgnoredNoteRegistry};
use puml_tooling::parser_core::parse_tree::{ParseNode, Rule};

#[test]
fn registered_note_aliases_filter_relations() {
    let mut registry = IgnoredNoteRegistry::new();
    assert!(!registry.contains("SyncNote"));
    registry.register("SyncNote");
    assert!(registry.contains("SyncNote"));
    assert!(!registry.contains("Other"));
    assert!(registry.filters_endpoints("A", "SyncNote"));
    assert!(registry.filters_endpoints("SyncNote", "B"));
    assert!(!registry.filters_endpoints("A", "B"));
    registry.register("SyncNote");
    assert!(registry.contains("SyncNote"));
}

#[test]
fn only_note_declarations_are_note_rules() {
    assert!(is_note_rule(Rule::note_single_line));
    assert!(is_note_rule(Rule::note_multiline));
    assert!(is_note_rule(Rule::note_declaration));
    assert!(!is_note_rule(Rule::note_alias));
    assert!(!is_note_rule(Rule::label));
}

fn note_node(rule: Rule, text: &str, children: Vec<ParseNode>) -> ParseNode {
    ParseNode { rule, text: text.to_string(), line: 1, column: 1, end_line: 1, end_column: 1, children }
}

#[test]
fn test_find_note_alias_from_single_line_note() {
    // note "Synchronised access only" as SyncNote
    let pair = note_node(
        Rule::note_declaration,
        "note \"Synchronised access only\" as SyncNote",
        vec![note_node(
            Rule::note_single_line,
            "note \"Synchronised access only\" as SyncNote",
            vec![note_node(Rule::description_text, "\"Synchronised access only\"", vec![]), note_node(Rule::note_alias, "SyncNote", vec![])],
        )],
    );
    assert_eq!(find_note_alias(&pair).as_deref(), Some("SyncNote"));
}

#[test]
fn test_find_note_alias_from_multiline_note() {
    // note as SyncNote / Synchronised access only / end note
    let pair = note_node(
        Rule::note_declaration,
        "note as SyncNote\n  Synchronised access only\nend note\n",
        vec![note_node(
            Rule::note_multiline,
            "",
            vec![note_node(Rule::note_alias, "SyncNote", vec![]), note_node(Rule::description_text, "Synchronised access only", vec![])],
        )],
    );
    assert_eq!(find_note_alias(&pair).as_deref(), Some("SyncNote"));
}

#[test]
fn note_without_alias_has_none() {
    let pair = note_node(Rule::note_declaration, "note left: hi", vec![note_node(Rule::description_text, "hi", vec![])]);
    assert_eq!(find_note_alias(&pair), None);
}

#[test]
fn registry_answers_by_the_registered_aliases() {
    let mut reg = IgnoredNoteRegistry::new();
    let registered = ["N1", "N2", "N1", "Note_3"];
    for a in registered {
        reg.register(a);
    }
    for x in ["N1", "N2", "Note_3", "N4", "", "n1"] {
        assert_eq!(reg.contains(x), registered.contains(&x));
    }
    assert!(reg.filters_endpoints("N2", "Comp"));
    assert!(reg.filters_endpoints("Comp", "Note_3"));
    assert!(!reg.filters_endpoints("Comp", "Other"));
    assert!(reg.contains("N1"));
}
