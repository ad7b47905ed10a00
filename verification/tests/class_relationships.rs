use puml_tooling::cpp::resolved_type::ResolvedType;
use puml_tooling::diagram_model::{EntityType, RelationType, SimpleEntity};
use puml_tooling::source_location::SourceLocation;
use puml_tooling::visitor::class_relationship_resolver::resolve_relationships;
use puml_tooling::visitor::class_visitor::ClassVisitor;
use puml_tooling::visitor::context::{
    ParsedBaseClass, ParsedClassInfo, ParsedMethodType, ParsedVariableType, VisitContext,
};

fn entity(id: &str, name: &str, file: &str, line: u32) -> SimpleEntity {
    SimpleEntity {
        id: id.to_string(),
        name: name.to_string(),
        source_location: SourceLocation::new(file, line),
        ..Default::default()
    }
}

fn context(types: Vec<SimpleEntity>) -> VisitContext {
    VisitContext {
        types: types.into_iter().map(|e| (e.id.clone(), e)).collect(),
        parsed_class_info: Vec::new(),
    }
}

fn class_info(
    id: &str,
    base_classes: Vec<ParsedBaseClass>,
    variable_types: Vec<ParsedVariableType>,
    method_types: Vec<ParsedMethodType>,
) -> ParsedClassInfo {
    ParsedClassInfo {
        id: id.to_string(),
        base_classes,
        variable_types,
        method_types,
        has_abstract_methods: false,
        has_concrete_methods: false,
    }
}

fn get<'a>(ctx: &'a VisitContext, key: &str) -> &'a SimpleEntity {
    &ctx.types.iter().find(|(k, _)| k == key).expect("type must still exist").1
}

#[test]
fn class_relationship_resolver_resolve_relationships_uses_variable_and_method_source_locations() {
    let source_file = "unit_source.cpp";
    let mut ctx = context(vec![
        entity("Engine", "Engine", source_file, 1),
        entity("Car", "Car", source_file, 3),
    ]);
    ctx.parsed_class_info.push(class_info(
        "Car",
        vec![],
        vec![ParsedVariableType {
            name: "engine".to_string(),
            resolved_type: ResolvedType::UserDefined("Engine".to_string()),
            source_location: SourceLocation::new(source_file, 5),
        }],
        vec![ParsedMethodType {
            name: "buildEngine".to_string(),
            return_type: ResolvedType::UserDefined("Engine".to_string()),
            parameter_types: vec![],
            source_location: SourceLocation::new(source_file, 6),
        }],
    ));

    resolve_relationships(&mut ctx);

    let car = get(&ctx, "Car");
    // Class source location should not be modified by relationship resolution.
    assert_eq!(car.source_location, SourceLocation::new(source_file, 3));
    let variable_relationship = car
        .relationships
        .iter()
        .find(|r| r.target == "Engine" && r.relation_type == RelationType::Composition)
        .expect("Expected a composition relationship inferred from member variable type");
    assert_eq!(variable_relationship.source_location, SourceLocation::new(source_file, 5));
    let method_relationship = car
        .relationships
        .iter()
        .find(|r| r.target == "Engine" && r.relation_type == RelationType::Association)
        .expect("Expected an association relationship inferred from method return type");
    assert_eq!(method_relationship.source_location, SourceLocation::new(source_file, 6));
}

#[test]
fn class_relationship_resolver_resolve_relationships_skips_dependent_base_class_without_panicking() {
    let source_file = "is_maplike_container.hpp";
    let mut ctx = context(vec![
        entity("amp::detail::is_container_base", "is_container_base", source_file, 1),
        entity("amp::detail::is_maplike_container", "is_maplike_container", source_file, 5),
    ]);
    ctx.parsed_class_info.push(class_info(
        "amp::detail::is_maplike_container",
        vec![
            // Unresolvable dependent expression — must be skipped.
            ParsedBaseClass {
                resolved_type: ResolvedType::Dependent(
                    "decltype(is_maplike_container_impl(std::declval<T>()))".to_string(),
                ),
                source_location: SourceLocation::new(source_file, 5),
            },
            // A normal, resolvable base class alongside the dependent one.
            ParsedBaseClass {
                resolved_type: ResolvedType::UserDefined("amp::detail::is_container_base".to_string()),
                source_location: SourceLocation::new(source_file, 5),
            },
        ],
        vec![],
        vec![],
    ));

    resolve_relationships(&mut ctx);

    let is_maplike_container = get(&ctx, "amp::detail::is_maplike_container");
    assert!(
        !is_maplike_container.relationships.iter().any(|r| r.relation_type == RelationType::Implementation),
        "dependent base class must not produce a relationship"
    );
    let inheritance_relationship = is_maplike_container
        .relationships
        .iter()
        .find(|r| r.target == "amp::detail::is_container_base" && r.relation_type == RelationType::Inheritance)
        .expect("Expected an inheritance relationship for the resolvable base class");
    assert_eq!(inheritance_relationship.source_location, SourceLocation::new(source_file, 5));
}

#[test]
fn class_relationship_resolver_resolve_relationships_warns_and_skips_unexpected_unresolved_base() {
    let source_file = "unit_source.cpp";
    let mut ctx = context(vec![entity("Derived", "Derived", source_file, 1)]);
    ctx.parsed_class_info.push(class_info(
        "Derived",
        vec![ParsedBaseClass {
            // Not `Dependent`: an unexpected, unresolvable base type.
            resolved_type: ResolvedType::Unknown("SomeWeirdType".to_string()),
            source_location: SourceLocation::new(source_file, 1),
        }],
        vec![],
        vec![],
    ));

    resolve_relationships(&mut ctx);

    let derived = get(&ctx, "Derived");
    assert!(derived.relationships.is_empty(), "unresolvable base class must not produce a relationship");
}

#[test]
fn class_visitor_test_resolve_relationships_uses_variable_and_method_source_locations() {
    let source_file = "unit_source.cpp";
    let mut ctx = context(vec![
        entity("Engine", "Engine", source_file, 1),
        entity("Car", "Car", source_file, 3),
    ]);
    ctx.parsed_class_info.push(class_info(
        "Car",
        vec![],
        vec![ParsedVariableType {
            name: "engine".to_string(),
            resolved_type: ResolvedType::UserDefined("Engine".to_string()),
            source_location: SourceLocation::new(source_file, 5),
        }],
        vec![ParsedMethodType {
            name: "buildEngine".to_string(),
            return_type: ResolvedType::UserDefined("Engine".to_string()),
            parameter_types: vec![],
            source_location: SourceLocation::new(source_file, 6),
        }],
    ));

    ClassVisitor::resolve_relationships(&mut ctx);

    let car = get(&ctx, "Car");
    // Class source location should not be modified by relationship resolution.
    assert_eq!(car.source_location, SourceLocation::new(source_file, 3));
    let variable_relationship = car
        .relationships
        .iter()
        .find(|r| r.target == "Engine" && r.relation_type == RelationType::Composition)
        .expect("Expected a composition relationship inferred from member variable type");
    assert_eq!(variable_relationship.source_location, SourceLocation::new(source_file, 5));
    let method_relationship = car
        .relationships
        .iter()
        .find(|r| r.target == "Engine" && r.relation_type == RelationType::Association)
        .expect("Expected an association relationship inferred from method return type");
    assert_eq!(method_relationship.source_location, SourceLocation::new(source_file, 6));
}

#[test]
fn class_visitor_test_resolve_relationships_skips_dependent_base_class_without_panicking() {
    let source_file = "is_maplike_container.hpp";
    let mut ctx = context(vec![
        entity("amp::detail::is_container_base", "is_container_base", source_file, 1),
        entity("amp::detail::is_maplike_container", "is_maplike_container", source_file, 5),
    ]);
    ctx.parsed_class_info.push(class_info(
        "amp::detail::is_maplike_container",
        vec![
            // Unresolvable dependent expression — must be skipped.
            ParsedBaseClass {
                resolved_type: ResolvedType::Dependent(
                    "decltype(is_maplike_container_impl(std::declval<T>()))".to_string(),
                ),
                source_location: SourceLocation::new(source_file, 5),
            },
            // A normal, resolvable base class alongside the dependent one.
            ParsedBaseClass {
                resolved_type: ResolvedType::UserDefined("amp::detail::is_container_base".to_string()),
                source_location: SourceLocation::new(source_file, 5),
            },
        ],
        vec![],
        vec![],
    ));

    ClassVisitor::resolve_relationships(&mut ctx);

    let is_maplike_container = get(&ctx, "amp::detail::is_maplike_container");
    assert!(
        !is_maplike_container.relationships.iter().any(|r| r.relation_type == RelationType::Implementation),
        "dependent base class must not produce a relationship"
    );
    let inheritance_relationship = is_maplike_container
        .relationships
        .iter()
        .find(|r| r.target == "amp::detail::is_container_base" && r.relation_type == RelationType::Inheritance)
        .expect("Expected an inheritance relationship for the resolvable base class");
    assert_eq!(inheritance_relationship.source_location, SourceLocation::new(source_file, 5));
}

#[test]
fn class_visitor_test_resolve_relationships_warns_and_skips_unexpected_unresolved_base() {
    let source_file = "unit_source.cpp";
    let mut ctx = context(vec![entity("Derived", "Derived", source_file, 1)]);
    ctx.parsed_class_info.push(class_info(
        "Derived",
        vec![ParsedBaseClass {
            // Not `Dependent`: an unexpected, unresolvable base type.
            resolved_type: ResolvedType::Unknown("SomeWeirdType".to_string()),
            source_location: SourceLocation::new(source_file, 1),
        }],
        vec![],
        vec![],
    ));

    ClassVisitor::resolve_relationships(&mut ctx);

    let derived = get(&ctx, "Derived");
    assert!(derived.relationships.is_empty(), "unresolvable base class must not produce a relationship");
}

#[test]
fn base_interface_is_implemented_and_self_and_repeats_are_skipped() {
    let f = "x.hpp";
    let mut iface = entity("ns::Api", "Api", f, 1);
    iface.entity_type = EntityType::Interface;
    let mut ctx = context(vec![iface, entity("ns::Impl", "Impl", f, 2)]);
    let user = |name: &str| ResolvedType::UserDefined(name.to_string());
    let info = || {
        class_info(
            "ns::Impl",
            vec![
                ParsedBaseClass { resolved_type: user("ns::Api"), source_location: SourceLocation::new(f, 2) },
                ParsedBaseClass { resolved_type: user("ns::Api"), source_location: SourceLocation::new(f, 3) },
            ],
            vec![ParsedVariableType {
                name: "me".to_string(),
                resolved_type: ResolvedType::Pointer(Box::new(user("ns::Impl"))),
                source_location: SourceLocation::new(f, 4),
            }],
            vec![],
        )
    };
    ctx.parsed_class_info.push(info());
    ctx.parsed_class_info.push(info());
    resolve_relationships(&mut ctx);
    assert!(ctx.parsed_class_info.is_empty());
    let implementation = get(&ctx, "ns::Impl");
    assert_eq!(implementation.relationships.len(), 1);
    let r = &implementation.relationships[0];
    assert_eq!(r.source, "ns::Impl");
    assert_eq!(r.target, "ns::Api");
    assert_eq!(r.relation_type, RelationType::Implementation);
    assert_eq!(r.source_location, SourceLocation::new(f, 2));
}

#[test]
fn unqualified_names_resolve_from_enclosing_namespaces_outwards() {
    let f = "y.hpp";
    let mut car = entity("a::b::Car", "Car", f, 1);
    car.enclosing_namespace_id = Some("a::b".to_string());
    let mut ctx = context(vec![car, entity("a::Wheel", "Wheel", f, 2), entity("a::b::Seat", "Seat", f, 3)]);
    ctx.parsed_class_info.push(class_info(
        "a::b::Car",
        vec![],
        vec![
            ParsedVariableType {
                name: "wheel".to_string(),
                resolved_type: ResolvedType::UserDefined("Wheel".to_string()),
                source_location: SourceLocation::new(f, 4),
            },
            ParsedVariableType {
                name: "seat".to_string(),
                resolved_type: ResolvedType::Reference(Box::new(ResolvedType::UserDefined("Seat".to_string()))),
                source_location: SourceLocation::new(f, 5),
            },
            ParsedVariableType {
                name: "qualified".to_string(),
                resolved_type: ResolvedType::UserDefined("x::Wheel".to_string()),
                source_location: SourceLocation::new(f, 6),
            },
        ],
        vec![ParsedMethodType {
            name: "drive".to_string(),
            return_type: ResolvedType::Builtin("void".to_string()),
            parameter_types: vec![ResolvedType::Pointer(Box::new(ResolvedType::UserDefined("Wheel".to_string())))],
            source_location: SourceLocation::new(f, 7),
        }],
    ));
    resolve_relationships(&mut ctx);
    let car = get(&ctx, "a::b::Car");
    let rels: Vec<(&str, RelationType)> = car.relationships.iter().map(|r| (r.target.as_str(), r.relation_type)).collect();
    assert_eq!(
        rels,
        vec![
            ("a::Wheel", RelationType::Composition),
            ("a::b::Seat", RelationType::Aggregation),
            ("a::Wheel", RelationType::Dependency),
        ]
    );
}
