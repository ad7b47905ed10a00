use puml_tooling::diagram_model::{
    ClassDiagram, ComponentType, EntityType, LogicComponent, Method, SimpleEntity,
};
use puml_tooling::lobster::{class_model_to_lobster, comp_model_to_lobster, empty_lobster_document};
use puml_tooling::source_location::SourceLocation;

fn component(id: &str, element_type: ComponentType) -> LogicComponent {
    LogicComponent { id: id.to_string(), name: None, alias: None, parent_id: None, element_type }
}

fn method(name: &str) -> Method {
    Method { name: name.to_string(), ..Default::default() }
}

#[test]
fn component_model_emits_interfaces_sorted_by_tag() {
    let model = vec![
        component("pkg.Zeta", ComponentType::Interface),
        component("pkg.Comp", ComponentType::Component),
        component("pkg.Alpha", ComponentType::Interface),
    ];
    let doc = comp_model_to_lobster(&model, "pkg/component.puml");
    assert_eq!(doc.schema, "lobster-imp-trace");
    assert_eq!(doc.version, 3);
    assert_eq!(doc.generator, "puml_lobster");
    let tags: Vec<&str> = doc.data.iter().map(|i| i.tag.as_str()).collect();
    assert_eq!(tags, vec!["req pkg.Alpha", "req pkg.Zeta"]);
    let first = &doc.data[0];
    assert_eq!(first.file, "pkg/component.puml");
    assert_eq!(first.line, None);
    assert_eq!(first.name, "pkg.Alpha");
    assert_eq!(first.kind, "Interface");
    assert_eq!(first.language.as_deref(), Some("Architecture"));
    assert!(first.framework.is_none());
    assert!(first.refs.is_empty());
}

#[test]
fn class_model_emits_methods_of_interfaces_and_other_entities() {
    let iface = SimpleEntity {
        id: "pkg.Api".to_string(),
        name: "Api".to_string(),
        entity_type: EntityType::Interface,
        methods: vec![method("open"), method("close")],
        source_location: SourceLocation::new("pkg/api.puml", 12),
        ..Default::default()
    };
    let strukt = SimpleEntity {
        id: "pkg.Data".to_string(),
        name: "Data".to_string(),
        entity_type: EntityType::Struct,
        source_location: SourceLocation::new("pkg/data.puml", 0),
        ..Default::default()
    };
    let model = ClassDiagram { name: "d".to_string(), entities: vec![iface, strukt] };
    let doc = class_model_to_lobster(&model);
    let tags: Vec<&str> = doc.data.iter().map(|i| i.tag.as_str()).collect();
    assert_eq!(tags, vec!["req pkg.Api.close", "req pkg.Api.open", "req pkg.Data"]);
    assert_eq!(doc.data[0].kind, "Method");
    assert_eq!(doc.data[0].file, "pkg/api.puml");
    assert_eq!(doc.data[0].line, Some(12));
    assert_eq!(doc.data[2].kind, "Struct");
    assert_eq!(doc.data[2].file, "pkg/data.puml");
    assert_eq!(doc.data[2].line, None);
}

#[test]
fn class_entity_uses_own_source_location() {
    let entity = SimpleEntity {
        id: "pkg.Foo".to_string(),
        name: "Foo".to_string(),
        source_location: SourceLocation::new("pkg/entity_specific.puml", 0),
        ..Default::default()
    };
    let model = ClassDiagram { name: "d".to_string(), entities: vec![entity] };
    let doc = class_model_to_lobster(&model);
    assert_eq!(doc.data.len(), 1);
    assert_eq!(doc.data[0].file, "pkg/entity_specific.puml");
    assert_eq!(doc.data[0].kind, "Class");
}

#[test]
fn interface_without_methods_emits_nothing() {
    let entity = SimpleEntity {
        id: "pkg.Empty".to_string(),
        entity_type: EntityType::Interface,
        ..Default::default()
    };
    let model = ClassDiagram { name: "d".to_string(), entities: vec![entity] };
    assert!(class_model_to_lobster(&model).data.is_empty());
}

#[test]
fn empty_document_has_schema_and_no_items() {
    let doc = empty_lobster_document();
    assert_eq!(doc.schema, "lobster-imp-trace");
    assert!(doc.data.is_empty());
}
