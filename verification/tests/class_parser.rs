use puml_tooling::class_diagram::class_ast::{ClassUmlTopLevel, Element, EnumValue, Name, Visibility};
use puml_tooling::class_diagram::class_parser::{
    parse_enum_def, parse_enum_value, parse_method, parse_named, parse_namespace, parse_package, parse_param,
    parse_relationship, parse_type_def, parse_visibility, strip_quotes, PumlClassParser,
};
use puml_tooling::parser_core::parse_tree::{ParseNode, Rule};

fn leaf(rule: Rule, text: &str) -> ParseNode {
    ParseNode { rule, text: text.to_string(), line: 1, column: 1, end_line: 1, end_column: 1, children: vec![] }
}

fn node(rule: Rule, text: &str, children: Vec<ParseNode>) -> ParseNode {
    ParseNode { rule, text: text.to_string(), line: 1, column: 1, end_line: 1, end_column: 1, children }
}

fn named(internal: &str) -> ParseNode {
    node(Rule::named, internal, vec![leaf(Rule::internal_name, internal)])
}

fn class_def(kind: &str, name: &str, members: Vec<ParseNode>) -> ParseNode {
    node(
        Rule::type_def,
        "",
        vec![
            leaf(Rule::type_kind, kind),
            named(name),
            node(Rule::class_body, "", members.into_iter().map(|m| node(Rule::class_member, "", vec![m])).collect()),
        ],
    )
}

#[test]
fn test_parse_visibility_none() {
    let vis = parse_visibility(None);
    assert_eq!(vis, Visibility::Public);
}

#[test]
fn test_parse_visibility_unknown_symbol() {
    let pair = leaf(Rule::identifier, "abc");
    let vis = parse_visibility(Some(&pair));
    assert_eq!(vis, Visibility::Public);
}

#[test]
fn visibility_markers() {
    assert_eq!(parse_visibility(Some(&leaf(Rule::class_visibility, "+"))), Visibility::Public);
    assert_eq!(parse_visibility(Some(&leaf(Rule::class_visibility, "-"))), Visibility::Private);
    assert_eq!(parse_visibility(Some(&leaf(Rule::class_visibility, "#"))), Visibility::Protected);
    assert_eq!(parse_visibility(Some(&leaf(Rule::class_visibility, "~"))), Visibility::Package);
}

#[test]
fn strip_quotes_only_when_wrapped() {
    assert_eq!(strip_quotes("\"A B\""), "A B");
    assert_eq!(strip_quotes("AB"), "AB");
    assert_eq!(strip_quotes("\"AB"), "\"AB");
    assert_eq!(strip_quotes("\""), "\"");
}

#[test]
fn test_parse_param_unnamed_varargs() {
    // param "int..." -> param_unnamed(type_name "int", varargs "...")
    let pair = node(
        Rule::param,
        "int...",
        vec![node(Rule::param_unnamed, "int...", vec![leaf(Rule::typename, "int"), leaf(Rule::varargs, "...")])],
    );

    let param = parse_param(&pair);

    assert_eq!(param.name, None);
    assert_eq!(param.param_type, "int");
    assert!(param.varargs);
}

#[test]
fn named_param_keeps_its_name() {
    let pair = node(
        Rule::param,
        "count: int",
        vec![node(Rule::param_named, "count: int", vec![leaf(Rule::identifier, "count"), leaf(Rule::typename, "int")])],
    );
    let param = parse_param(&pair);
    assert_eq!(param.name.as_deref(), Some("count"));
    assert_eq!(param.param_type, "int");
    assert!(!param.varargs);
}

#[test]
fn test_parse_relationship_minimal() {
    // "A --> B"
    let arrow = node(Rule::connection_arrow, "-->", vec![leaf(Rule::arrow_segment, "--"), leaf(Rule::arrow_suffix, ">")]);
    let pair = node(Rule::relationship, "A --> B", vec![leaf(Rule::identifier, "A "), arrow, leaf(Rule::identifier, " B")]);

    let rel = parse_relationship(&pair);

    assert_eq!(rel.left, "A");
    assert_eq!(rel.right, "B");
    assert_eq!(rel.arrow.line.raw, "--");
    assert_eq!(rel.arrow.right.map(|d| d.raw).as_deref(), Some(">"));
    assert_eq!(rel.label, None);
}

#[test]
fn relationship_label_is_trimmed_and_bad_arrow_falls_back() {
    let arrow = node(
        Rule::connection_arrow,
        "-sideways->",
        vec![
            leaf(Rule::arrow_segment, "-"),
            node(Rule::arrow_middle, "sideways", vec![leaf(Rule::arrow_direction, "sideways")]),
            leaf(Rule::arrow_segment, "-"),
            leaf(Rule::arrow_suffix, ">"),
        ],
    );
    let pair = node(
        Rule::relationship,
        "",
        vec![leaf(Rule::identifier, "A"), arrow, leaf(Rule::identifier, "B"), leaf(Rule::label, "  uses ")],
    );
    let rel = parse_relationship(&pair);
    assert_eq!(rel.label.as_deref(), Some("uses"));
    assert_eq!(rel.arrow.line.raw, "");
    assert!(rel.arrow.right.is_none());
}

#[test]
fn test_enum_value_all_cases() {
    match parse_enum_value(&leaf(Rule::enum_value, "= 1")) {
        EnumValue::Literal(v) => assert_eq!(v, "1"),
        _ => panic!(),
    }
    match parse_enum_value(&leaf(Rule::enum_value, ": ok")) {
        EnumValue::Description(v) => assert_eq!(v, "ok"),
        _ => panic!(),
    }
    match parse_enum_value(&leaf(Rule::enum_value, " 7 ")) {
        EnumValue::Literal(v) => assert_eq!(v, "7"),
        _ => panic!(),
    }
}

#[test]
fn test_attribute_without_name() {
    // @startuml / class A { +a } / @enduml
    let attribute = node(Rule::attribute, "+a", vec![leaf(Rule::class_visibility, "+")]);
    let root = node(
        Rule::class_start,
        "",
        vec![leaf(Rule::startuml, "@startuml"), node(Rule::top_level, "", vec![class_def("class", "A", vec![attribute])])],
    );
    let mut parser = PumlClassParser;
    let result = parser.parse_file(&root);
    assert!(!result.elements.is_empty());
    match &result.elements[0] {
        ClassUmlTopLevel::Types(Element::ClassDef(c)) => {
            assert_eq!(c.attributes.len(), 1);
            assert_eq!(c.attributes[0].name, "");
            assert_eq!(c.attributes[0].visibility, Visibility::Public);
        },
        other => panic!("unexpected element {:?}", other),
    }
}

#[test]
fn named_with_alias_sets_display() {
    let n = node(
        Rule::named,
        "\"Long Name\" as LN",
        vec![
            leaf(Rule::internal_name, "LN"),
            node(Rule::alias_clause, "as \"Long Name\"", vec![leaf(Rule::identifier, "\"Long Name\"")]),
        ],
    );
    let mut name = Name { internal: String::new(), display: None };
    parse_named(&n, &mut name);
    assert_eq!(name.internal, "LN");
    assert_eq!(name.display.as_deref(), Some("Long Name"));

    let mut kept = Name { internal: "Old".to_string(), display: None };
    parse_named(&node(Rule::named, "", vec![]), &mut kept);
    assert_eq!(kept.internal, "Old");
}

#[test]
fn method_reads_generics_parameters_and_return_type() {
    let m = node(
        Rule::method,
        "",
        vec![
            leaf(Rule::class_visibility, "#"),
            leaf(Rule::identifier, "map"),
            node(Rule::generic_param_list, "<T, U>", vec![leaf(Rule::identifier, "T"), leaf(Rule::identifier, "U")]),
            node(
                Rule::param_list,
                "",
                vec![node(Rule::param, "T", vec![node(Rule::param_unnamed, "T", vec![leaf(Rule::typename, "T")])])],
            ),
            node(Rule::return_type, ": U", vec![leaf(Rule::typename, "U")]),
        ],
    );
    let method = parse_method(&m);
    assert_eq!(method.visibility, Visibility::Protected);
    assert_eq!(method.name, "map");
    assert_eq!(method.generic_params, vec!["T".to_string(), "U".to_string()]);
    assert_eq!(method.params.len(), 1);
    assert_eq!(method.params[0].param_type, "T");
    assert_eq!(method.data_type.as_deref(), Some("U"));
}

#[test]
fn type_def_kind_selects_the_element() {
    match parse_type_def(&class_def("struct", "S", vec![])) {
        Element::StructDef(d) => assert_eq!(d.name.internal, "S"),
        other => panic!("unexpected {:?}", other),
    }
    match parse_type_def(&class_def("interface", "I", vec![])) {
        Element::InterfaceDef(d) => assert_eq!(d.name.internal, "I"),
        other => panic!("unexpected {:?}", other),
    }
}

#[test]
fn enum_definition_takes_items_of_its_body() {
    let e = node(
        Rule::enum_def,
        "",
        vec![
            named("Color"),
            node(
                Rule::enum_body,
                "",
                vec![
                    node(Rule::enum_item, "RED = 1", vec![leaf(Rule::identifier, "RED"), leaf(Rule::enum_value, "= 1")]),
                    node(Rule::enum_item, "-GREEN", vec![leaf(Rule::class_visibility, "-"), leaf(Rule::identifier, "GREEN")]),
                ],
            ),
        ],
    );
    let d = parse_enum_def(&e);
    assert_eq!(d.name.internal, "Color");
    assert_eq!(d.items.len(), 2);
    assert_eq!(d.items[0].value, Some(EnumValue::Literal("1".to_string())));
    assert_eq!(d.items[1].visibility, Some(Visibility::Private));
}

#[test]
fn namespace_marks_its_definitions_and_nests() {
    let inner = node(Rule::namespace_def, "", vec![named("inner"), node(Rule::top_level, "", vec![class_def("class", "B", vec![])])]);
    let ns = node(
        Rule::namespace_def,
        "",
        vec![named("outer"), node(Rule::top_level, "", vec![class_def("class", "A", vec![]), inner])],
    );
    let n = parse_namespace(&ns);
    assert_eq!(n.name.internal, "outer");
    match &n.types[0] {
        Element::ClassDef(c) => assert_eq!(c.namespace, "outer"),
        other => panic!("unexpected {:?}", other),
    }
    assert_eq!(n.namespaces.len(), 1);
    match &n.namespaces[0].types[0] {
        Element::ClassDef(c) => assert_eq!(c.namespace, "inner"),
        other => panic!("unexpected {:?}", other),
    }
}

#[test]
fn package_marks_definitions_and_keeps_relations() {
    let arrow = node(Rule::connection_arrow, "--", vec![leaf(Rule::arrow_segment, "--")]);
    let rel = node(Rule::relationship, "", vec![leaf(Rule::identifier, "A"), arrow, leaf(Rule::identifier, "B")]);
    let pkg = node(
        Rule::package_def,
        "",
        vec![named("P"), node(Rule::top_level, "", vec![class_def("class", "A", vec![]), rel])],
    );
    let p = parse_package(&pkg);
    assert_eq!(p.name.internal, "P");
    match &p.types[0] {
        Element::ClassDef(c) => assert_eq!(c.package, "P"),
        other => panic!("unexpected {:?}", other),
    }
    assert_eq!(p.relationships.len(), 1);
    assert_eq!(p.relationships[0].left, "A");
}

#[test]
fn diagram_name_is_the_second_word_of_startuml() {
    let root = node(Rule::class_start, "", vec![leaf(Rule::startuml, "@startuml  my_diagram extra")]);
    let mut parser = PumlClassParser;
    let file = parser.parse_file(&root);
    assert_eq!(file.name, "my_diagram");
    assert!(file.is_empty());

    let unnamed = node(Rule::class_start, "", vec![leaf(Rule::startuml, "@startuml")]);
    assert_eq!(parser.parse_file(&unnamed).name, "");
}
